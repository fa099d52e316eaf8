//! The compiler from expressions to filter trees, and from trees to closures over typed
//! arrays.

use crate::common::ast;
use crate::common::ast::{
    CallExpr, ComprehensionExpr, Expr, Expression, IdedExpr, LiteralValue, Operator,
};
use crate::context;
use crate::context::Context;
use crate::error;
use crate::error::{ExecutionError, HostRequest};
use crate::objects;
use crate::objects::{Val, Value};
use crate::patterns;
use crate::patterns::{CompiledRegex, WordSet};
use crate::strings;
use crate::vm::filter_tree;
use crate::vm::filter_tree::{
    FilterNode, FnModel, FnTable, I64Expr, IntCmp, IntTest, StrExpr,
};
use std::collections::HashSet;
use std::sync::Arc;
use vstd::prelude::*;
use vstd::string::*;

verus! {

/// The length of a string expression over typed arrays, compiled.
#[derive(Debug)]
pub enum StrLenClosure {
    Const(usize),
    Var(usize),
    Sum(Box<StrLenClosure>, Box<StrLenClosure>),
}

/// An integer expression over typed arrays, compiled.
#[derive(Debug)]
pub enum I64Closure {
    Const(i64),
    Var(usize),
    Add(Box<I64Closure>, Box<I64Closure>),
    Sub(Box<I64Closure>, Box<I64Closure>),
    Mul(Box<I64Closure>, Box<I64Closure>),
    Div(Box<I64Closure>, Box<I64Closure>),
    Mod(Box<I64Closure>, Box<I64Closure>),
    Neg(Box<I64Closure>),
    StrLen(Box<StrLenClosure>),
}

/// A test of one string, compiled.
#[derive(Debug)]
pub enum TextTest {
    Eq(String),
    Ne(String),
    Among(Vec<String>),
    StartsWith(String),
    EndsWith(String),
    Contains(String),
    Matches(Arc<CompiledRegex>),
    ContainsAny(Vec<String>),
    Words(Arc<WordSet>, usize),
}

/// A boolean expression over typed arrays, compiled.
#[derive(Debug)]
pub enum BoolClosure {
    Const(bool),
    Var(usize),
    Test(IntTest),
    IntAmong(usize, Vec<i64>),
    IntInSet(usize, Arc<HashSet<i64>>),
    Text(usize, TextTest),
    Compare(IntCmp, I64Closure, I64Closure),
    And(Box<BoolClosure>, Box<BoolClosure>),
    Or(Box<BoolClosure>, Box<BoolClosure>),
    Not(Box<BoolClosure>),
}

/// The length that a closure gives.
pub open spec fn len_given(c: StrLenClosure, strings: Seq<Seq<char>>) -> nat
    decreases c,
{
    match c {
        StrLenClosure::Const(n) => n as nat,
        StrLenClosure::Var(idx) => strings::byte_len(strings[idx as int]),
        StrLenClosure::Sum(a, b) => len_given(*a, strings) + len_given(*b, strings),
    }
}

pub open spec fn len_in_range(c: StrLenClosure, n: nat) -> bool
    decreases c,
{
    match c {
        StrLenClosure::Const(_) => true,
        StrLenClosure::Var(idx) => idx < n,
        StrLenClosure::Sum(a, b) => len_in_range(*a, n) && len_in_range(*b, n),
    }
}

/// The integer that a closure gives.
pub open spec fn int_given(c: I64Closure, ints: Seq<i64>, strings: Seq<Seq<char>>) -> i64
    decreases c,
{
    match c {
        I64Closure::Const(v) => v,
        I64Closure::Var(idx) => ints[idx as int],
        I64Closure::Add(a, b) => int_given(*a, ints, strings).wrapping_add(
            int_given(*b, ints, strings),
        ),
        I64Closure::Sub(a, b) => int_given(*a, ints, strings).wrapping_sub(
            int_given(*b, ints, strings),
        ),
        I64Closure::Mul(a, b) => int_given(*a, ints, strings).wrapping_mul(
            int_given(*b, ints, strings),
        ),
        I64Closure::Div(a, b) => if int_given(*b, ints, strings) == 0 {
            0
        } else {
            filter_tree::wrapping_quotient(
                int_given(*a, ints, strings),
                int_given(*b, ints, strings),
            )
        },
        I64Closure::Mod(a, b) => if int_given(*b, ints, strings) == 0 {
            0
        } else {
            filter_tree::wrapping_remainder(
                int_given(*a, ints, strings),
                int_given(*b, ints, strings),
            )
        },
        I64Closure::Neg(a) => 0i64.wrapping_sub(int_given(*a, ints, strings)),
        I64Closure::StrLen(s) => len_given(*s, strings) as usize as i64,
    }
}

pub open spec fn closure_int_in_range(c: I64Closure, n: nat) -> bool
    decreases c,
{
    match c {
        I64Closure::Const(_) => true,
        I64Closure::Var(idx) => idx < n,
        I64Closure::Add(a, b) => closure_int_in_range(*a, n) && closure_int_in_range(*b, n),
        I64Closure::Sub(a, b) => closure_int_in_range(*a, n) && closure_int_in_range(*b, n),
        I64Closure::Mul(a, b) => closure_int_in_range(*a, n) && closure_int_in_range(*b, n),
        I64Closure::Div(a, b) => closure_int_in_range(*a, n) && closure_int_in_range(*b, n),
        I64Closure::Mod(a, b) => closure_int_in_range(*a, n) && closure_int_in_range(*b, n),
        I64Closure::Neg(a) => closure_int_in_range(*a, n),
        I64Closure::StrLen(s) => len_in_range(*s, n),
    }
}

pub open spec fn closure_int_fits(c: I64Closure, strings: Seq<Seq<char>>) -> bool
    decreases c,
{
    match c {
        I64Closure::Const(_) => true,
        I64Closure::Var(_) => true,
        I64Closure::Add(a, b) => closure_int_fits(*a, strings) && closure_int_fits(*b, strings),
        I64Closure::Sub(a, b) => closure_int_fits(*a, strings) && closure_int_fits(*b, strings),
        I64Closure::Mul(a, b) => closure_int_fits(*a, strings) && closure_int_fits(*b, strings),
        I64Closure::Div(a, b) => closure_int_fits(*a, strings) && closure_int_fits(*b, strings),
        I64Closure::Mod(a, b) => closure_int_fits(*a, strings) && closure_int_fits(*b, strings),
        I64Closure::Neg(a) => closure_int_fits(*a, strings),
        I64Closure::StrLen(s) => len_given(*s, strings) <= usize::MAX,
    }
}

/// What a test says of a string.
pub open spec fn text_holds(t: TextTest, s: Seq<char>) -> bool {
    match t {
        TextTest::Eq(v) => s == v@,
        TextTest::Ne(v) => s != v@,
        TextTest::Among(vals) => objects::texts(vals@).contains(s),
        TextTest::StartsWith(p) => p@.is_prefix_of(s),
        TextTest::EndsWith(p) => p@.is_suffix_of(s),
        TextTest::Contains(p) => strings::occurs_in(p@, s),
        TextTest::Matches(re) => patterns::regex_found(re@, s),
        TextTest::ContainsAny(needles) => patterns::some_occurs(objects::texts(needles@), s),
        TextTest::Words(words, min) => filter_tree::words_found(words@, s, min),
    }
}

/// What a closure says over typed arrays.
pub open spec fn closure_holds(c: BoolClosure, ints: Seq<i64>, strings: Seq<Seq<char>>) -> bool
    decreases c,
{
    match c {
        BoolClosure::Const(b) => b,
        BoolClosure::Var(idx) => filter_tree::typed_int(ints, idx) != 0,
        BoolClosure::Test(t) => filter_tree::int_test_holds(
            t,
            filter_tree::typed_int(ints, t.idx),
        ),
        BoolClosure::IntAmong(idx, vals) => vals@.contains(filter_tree::typed_int(ints, idx)),
        BoolClosure::IntInSet(idx, set) => set@.contains(filter_tree::typed_int(ints, idx)),
        BoolClosure::Text(idx, t) => text_holds(t, filter_tree::typed_str(strings, idx)),
        BoolClosure::Compare(op, a, b) => filter_tree::compares(
            op,
            int_given(a, ints, strings),
            int_given(b, ints, strings),
        ),
        BoolClosure::And(a, b) => closure_holds(*a, ints, strings) && closure_holds(
            *b,
            ints,
            strings,
        ),
        BoolClosure::Or(a, b) => closure_holds(*a, ints, strings) || closure_holds(
            *b,
            ints,
            strings,
        ),
        BoolClosure::Not(a) => !closure_holds(*a, ints, strings),
    }
}

/// Every index of the closure is below `n`.
pub open spec fn closure_in_range(c: BoolClosure, n: nat) -> bool
    decreases c,
{
    match c {
        BoolClosure::Const(_) => true,
        BoolClosure::Var(idx) => idx < n,
        BoolClosure::Test(t) => t.idx < n,
        BoolClosure::IntAmong(idx, _) => idx < n,
        BoolClosure::IntInSet(idx, _) => idx < n,
        BoolClosure::Text(idx, _) => idx < n,
        BoolClosure::Compare(_, a, b) => closure_int_in_range(a, n) && closure_int_in_range(b, n),
        BoolClosure::And(a, b) => closure_in_range(*a, n) && closure_in_range(*b, n),
        BoolClosure::Or(a, b) => closure_in_range(*a, n) && closure_in_range(*b, n),
        BoolClosure::Not(a) => closure_in_range(*a, n),
    }
}

/// The lengths of the strings that the closure measures can be counted.
pub open spec fn closure_fits(c: BoolClosure, strings: Seq<Seq<char>>) -> bool
    decreases c,
{
    match c {
        BoolClosure::Compare(_, a, b) => closure_int_fits(a, strings) && closure_int_fits(
            b,
            strings,
        ),
        BoolClosure::And(a, b) => closure_fits(*a, strings) && closure_fits(*b, strings),
        BoolClosure::Or(a, b) => closure_fits(*a, strings) && closure_fits(*b, strings),
        BoolClosure::Not(a) => closure_fits(*a, strings),
        _ => true,
    }
}

impl StrLenClosure {
    pub fn call(&self, strings: &[String]) -> (r: usize)
        requires
            len_in_range(*self, strings@.len()),
            len_given(*self, objects::texts(strings@)) <= usize::MAX,
        ensures
            r == len_given(*self, objects::texts(strings@)),
        decreases self,
    {
        match self {
            StrLenClosure::Const(n) => *n,
            StrLenClosure::Var(idx) => strings::str_byte_len(strings[*idx].as_str()),
            StrLenClosure::Sum(a, b) => a.call(strings) + b.call(strings),
        }
    }
}

impl I64Closure {
    pub fn call(&self, ints: &[i64], strings: &[String]) -> (r: i64)
        requires
            closure_int_in_range(*self, ints@.len()),
            closure_int_in_range(*self, strings@.len()),
            closure_int_fits(*self, objects::texts(strings@)),
        ensures
            r == int_given(*self, ints@, objects::texts(strings@)),
        decreases self,
    {
        match self {
            I64Closure::Const(v) => *v,
            I64Closure::Var(idx) => ints[*idx],
            I64Closure::Add(a, b) => a.call(ints, strings).wrapping_add(b.call(ints, strings)),
            I64Closure::Sub(a, b) => a.call(ints, strings).wrapping_sub(b.call(ints, strings)),
            I64Closure::Mul(a, b) => a.call(ints, strings).wrapping_mul(b.call(ints, strings)),
            I64Closure::Div(a, b) => {
                let bv = b.call(ints, strings);
                if bv == 0 {
                    0
                } else {
                    filter_tree::wrapping_div(a.call(ints, strings), bv)
                }
            },
            I64Closure::Mod(a, b) => {
                let bv = b.call(ints, strings);
                if bv == 0 {
                    0
                } else {
                    filter_tree::wrapping_rem(a.call(ints, strings), bv)
                }
            },
            I64Closure::Neg(a) => 0i64.wrapping_sub(a.call(ints, strings)),
            I64Closure::StrLen(s) => s.call(strings) as i64,
        }
    }
}

impl TextTest {
    pub fn call(&self, s: &str) -> (r: bool)
        ensures
            r == text_holds(*self, s@),
    {
        match self {
            TextTest::Eq(v) => strings::str_eq(s, v.as_str()),
            TextTest::Ne(v) => !strings::str_eq(s, v.as_str()),
            TextTest::Among(vals) => filter_tree::text_among(vals, s),
            TextTest::StartsWith(p) => strings::str_starts_with(s, p.as_str()),
            TextTest::EndsWith(p) => strings::str_ends_with(s, p.as_str()),
            TextTest::Contains(p) => strings::str_contains(s, p.as_str()),
            TextTest::Matches(re) => re.is_match(s),
            TextTest::ContainsAny(needles) => filter_tree::any_needle(needles, s),
            TextTest::Words(words, min) => filter_tree::enough_words(&**words, s, *min),
        }
    }
}

impl BoolClosure {
    /// Evaluates the closure over typed arrays.
    pub fn call(&self, ints: &[i64], strings: &[String]) -> (r: bool)
        requires
            closure_in_range(*self, ints@.len()),
            closure_in_range(*self, strings@.len()),
            closure_fits(*self, objects::texts(strings@)),
        ensures
            r == closure_holds(*self, ints@, objects::texts(strings@)),
        decreases self,
    {
        broadcast use vstd::std_specs::hash::group_hash_axioms;

        match self {
            BoolClosure::Const(b) => *b,
            BoolClosure::Var(idx) => ints[*idx] != 0,
            BoolClosure::Test(t) => t.eval(ints[t.idx]),
            BoolClosure::IntAmong(idx, vals) => filter_tree::int_among(vals, ints[*idx]),
            BoolClosure::IntInSet(idx, set) => set.contains(&ints[*idx]),
            BoolClosure::Text(idx, t) => t.call(strings[*idx].as_str()),
            BoolClosure::Compare(op, a, b) => op.eval(
                a.call(ints, strings),
                b.call(ints, strings),
            ),
            BoolClosure::And(a, b) => a.call(ints, strings) && b.call(ints, strings),
            BoolClosure::Or(a, b) => a.call(ints, strings) || b.call(ints, strings),
            BoolClosure::Not(a) => !a.call(ints, strings),
        }
    }
}

/// A closure gives the length that a string expression has over typed arrays.
pub open spec fn len_means(c: StrLenClosure, e: StrExpr) -> bool {
    &&& forall|s: Seq<Seq<char>>| #[trigger] len_given(c, s) == filter_tree::str_len_typed(e, s)
    &&& forall|n: nat| #[trigger] len_in_range(c, n) == filter_tree::str_in_range(e, n)
}

/// A closure gives what an integer expression evaluates to over typed arrays.
pub open spec fn int_means(c: I64Closure, e: I64Expr) -> bool {
    &&& forall|i: Seq<i64>, s: Seq<Seq<char>>| #[trigger]
        int_given(c, i, s) == filter_tree::int_value_typed(e, i, s)
    &&& forall|n: nat|
        filter_tree::int_in_range(e, n) ==> #[trigger] closure_int_in_range(c, n)
    &&& forall|s: Seq<Seq<char>>| #[trigger]
        closure_int_fits(c, s) == filter_tree::int_fits_typed(e, s)
}

/// A closure says what a node says over typed arrays.
pub open spec fn bool_means(c: BoolClosure, n: FilterNode) -> bool {
    &&& forall|i: Seq<i64>, s: Seq<Seq<char>>| #[trigger]
        closure_holds(c, i, s) == filter_tree::typed_holds(n, i, s)
    &&& forall|k: nat| filter_tree::in_range(n, k) ==> #[trigger] closure_in_range(c, k)
    &&& forall|s: Seq<Seq<char>>|
        filter_tree::fits_typed(n, s) ==> #[trigger] closure_fits(c, s)
}

/// Compiles the length of a string expression.
pub fn compile_str_len(expr: &StrExpr) -> (r: StrLenClosure)
    ensures
        len_means(r, *expr),
    decreases expr,
{
    match expr {
        StrExpr::Literal(s) => StrLenClosure::Const(strings::str_byte_len(s.as_str())),
        StrExpr::Var(idx) => StrLenClosure::Var(*idx),
        StrExpr::Concat(a, b) => {
            let x = compile_str_len(&**a);
            let y = compile_str_len(&**b);
            let r = StrLenClosure::Sum(Box::new(x), Box::new(y));
            assert forall|s: Seq<Seq<char>>| #[trigger]
                len_given(r, s) == filter_tree::str_len_typed(*expr, s) by {
                assert(len_given(x, s) == filter_tree::str_len_typed(**a, s));
                assert(len_given(y, s) == filter_tree::str_len_typed(**b, s));
            }
            assert forall|n: nat| #[trigger]
                len_in_range(r, n) == filter_tree::str_in_range(*expr, n) by {
                assert(len_in_range(x, n) == filter_tree::str_in_range(**a, n));
                assert(len_in_range(y, n) == filter_tree::str_in_range(**b, n));
            }
            r
        },
    }
}

proof fn lemma_int_pair(r: I64Closure, e: I64Expr, x: I64Closure, y: I64Closure, a: I64Expr, b: I64Expr)
    requires
        int_means(x, a),
        int_means(y, b),
        ({
            let (x, y, a, b) = (Box::new(x), Box::new(y), Box::new(a), Box::new(b));
            ||| r == I64Closure::Add(x, y) && e == I64Expr::Add(a, b)
            ||| r == I64Closure::Sub(x, y) && e == I64Expr::Sub(a, b)
            ||| r == I64Closure::Mul(x, y) && e == I64Expr::Mul(a, b)
            ||| r == I64Closure::Div(x, y) && e == I64Expr::Div(a, b)
            ||| r == I64Closure::Mod(x, y) && e == I64Expr::Mod(a, b)
        }),
    ensures
        int_means(r, e),
{
    assert forall|i: Seq<i64>, s: Seq<Seq<char>>| #[trigger]
        int_given(r, i, s) == filter_tree::int_value_typed(e, i, s) by {
        assert(int_given(x, i, s) == filter_tree::int_value_typed(a, i, s));
        assert(int_given(y, i, s) == filter_tree::int_value_typed(b, i, s));
    }
    assert forall|n: nat| filter_tree::int_in_range(e, n) implies #[trigger] closure_int_in_range(
        r,
        n,
    ) by {
        assert(closure_int_in_range(x, n));
        assert(closure_int_in_range(y, n));
    }
    assert forall|s: Seq<Seq<char>>| #[trigger]
        closure_int_fits(r, s) == filter_tree::int_fits_typed(e, s) by {
        assert(closure_int_fits(x, s) == filter_tree::int_fits_typed(a, s));
        assert(closure_int_fits(y, s) == filter_tree::int_fits_typed(b, s));
    }
}

/// Compiles an integer expression. The length of a list, which typed arrays do not hold,
/// is zero.
pub fn compile_closure_i64(expr: &I64Expr) -> (r: I64Closure)
    ensures
        int_means(r, *expr),
    decreases expr,
{
    match expr {
        I64Expr::Literal(v) => I64Closure::Const(*v),
        I64Expr::Var(idx) => I64Closure::Var(*idx),
        I64Expr::Add(a, b) => {
            let x = compile_closure_i64(&**a);
            let y = compile_closure_i64(&**b);
            let r = I64Closure::Add(Box::new(x), Box::new(y));
            proof {
                lemma_int_pair(r, *expr, x, y, **a, **b);
            }
            r
        },
        I64Expr::Sub(a, b) => {
            let x = compile_closure_i64(&**a);
            let y = compile_closure_i64(&**b);
            let r = I64Closure::Sub(Box::new(x), Box::new(y));
            proof {
                lemma_int_pair(r, *expr, x, y, **a, **b);
            }
            r
        },
        I64Expr::Mul(a, b) => {
            let x = compile_closure_i64(&**a);
            let y = compile_closure_i64(&**b);
            let r = I64Closure::Mul(Box::new(x), Box::new(y));
            proof {
                lemma_int_pair(r, *expr, x, y, **a, **b);
            }
            r
        },
        I64Expr::Div(a, b) => {
            let x = compile_closure_i64(&**a);
            let y = compile_closure_i64(&**b);
            let r = I64Closure::Div(Box::new(x), Box::new(y));
            proof {
                lemma_int_pair(r, *expr, x, y, **a, **b);
            }
            r
        },
        I64Expr::Mod(a, b) => {
            let x = compile_closure_i64(&**a);
            let y = compile_closure_i64(&**b);
            let r = I64Closure::Mod(Box::new(x), Box::new(y));
            proof {
                lemma_int_pair(r, *expr, x, y, **a, **b);
            }
            r
        },
        I64Expr::Neg(a) => {
            let x = compile_closure_i64(&**a);
            let r = I64Closure::Neg(Box::new(x));
            assert forall|i: Seq<i64>, s: Seq<Seq<char>>| #[trigger]
                int_given(r, i, s) == filter_tree::int_value_typed(*expr, i, s) by {
                assert(int_given(x, i, s) == filter_tree::int_value_typed(**a, i, s));
            }
            assert forall|n: nat| filter_tree::int_in_range(*expr, n) implies #[trigger]
                closure_int_in_range(r, n) by {
                assert(closure_int_in_range(x, n));
            }
            assert forall|s: Seq<Seq<char>>| #[trigger]
                closure_int_fits(r, s) == filter_tree::int_fits_typed(*expr, s) by {
                assert(closure_int_fits(x, s) == filter_tree::int_fits_typed(**a, s));
            }
            r
        },
        I64Expr::StrLen(e) => {
            let x = compile_str_len(&**e);
            let r = I64Closure::StrLen(Box::new(x));
            assert forall|i: Seq<i64>, s: Seq<Seq<char>>| #[trigger]
                int_given(r, i, s) == filter_tree::int_value_typed(*expr, i, s) by {
                assert(len_given(x, s) == filter_tree::str_len_typed(**e, s));
            }
            assert forall|n: nat| filter_tree::int_in_range(*expr, n) implies #[trigger]
                closure_int_in_range(r, n) by {
                assert(len_in_range(x, n) == filter_tree::str_in_range(**e, n));
            }
            assert forall|s: Seq<Seq<char>>| #[trigger]
                closure_int_fits(r, s) == filter_tree::int_fits_typed(*expr, s) by {
                assert(len_given(x, s) == filter_tree::str_len_typed(**e, s));
            }
            r
        },
        I64Expr::ListLen(_) => I64Closure::Const(0),
    }
}

pub(crate) fn clone_texts(s: &Vec<String>) -> (r: Vec<String>)
    ensures
        objects::texts(r@) == objects::texts(s@),
{
    let mut out: Vec<String> = Vec::new();
    let mut i: usize = 0;
    while i < s.len()
        invariant
            i <= s@.len(),
            out@.len() == i,
            forall|j: int| 0 <= j < i ==> (#[trigger] out@[j])@ == s@[j]@,
        decreases s@.len() - i,
    {
        out.push(s[i].clone());
        i += 1;
    }
    assert(objects::texts(out@) =~= objects::texts(s@));
    out
}

fn clone_ints(s: &Vec<i64>) -> (r: Vec<i64>)
    ensures
        r@ == s@,
{
    let mut out: Vec<i64> = Vec::new();
    let mut i: usize = 0;
    while i < s.len()
        invariant
            i <= s@.len(),
            out@ == s@.subrange(0, i as int),
        decreases s@.len() - i,
    {
        out.push(s[i]);
        i += 1;
        assert(out@ =~= s@.subrange(0, i as int));
    }
    assert(s@.subrange(0, i as int) =~= s@);
    out
}

/// The test of a string that a node makes, where it makes one.
fn compile_text_test(node: &FilterNode) -> (r: Option<TextTest>)
    ensures
        match r {
            Some(t) => filter_tree::str_index_of(*node) is Some && forall|s: Seq<char>| #[trigger]
                text_holds(t, s) == filter_tree::str_test_holds(*node, s),
            None => filter_tree::str_index_of(*node) is None,
        },
{
    match node {
        FilterNode::EqStr { val, .. } => Some(TextTest::Eq(val.clone())),
        FilterNode::NeStr { val, .. } => Some(TextTest::Ne(val.clone())),
        FilterNode::InStrLinear { vals, .. } => Some(TextTest::Among(clone_texts(vals))),
        FilterNode::InStrHash { set, .. } => Some(TextTest::Among(clone_texts(set))),
        FilterNode::StartsWith { prefix, .. } => Some(TextTest::StartsWith(prefix.clone())),
        FilterNode::EndsWith { suffix, .. } => Some(TextTest::EndsWith(suffix.clone())),
        FilterNode::Contains { substring, .. } => Some(TextTest::Contains(substring.clone())),
        FilterNode::Matches { regex, .. } => Some(TextTest::Matches(regex.clone())),
        FilterNode::ContainsAny { needles, .. } => Some(
            TextTest::ContainsAny(clone_texts(needles)),
        ),
        FilterNode::AhoContains { ac, min, .. } => Some(TextTest::Words(ac.clone(), *min)),
        _ => None,
    }
}

fn compile_compare(op: IntCmp, left: &I64Expr, right: &I64Expr) -> (r: BoolClosure)
    ensures
        forall|i: Seq<i64>, s: Seq<Seq<char>>| #[trigger]
            closure_holds(r, i, s) == filter_tree::compares(
                op,
                filter_tree::int_value_typed(*left, i, s),
                filter_tree::int_value_typed(*right, i, s),
            ),
        forall|n: nat|
            filter_tree::int_in_range(*left, n) && filter_tree::int_in_range(*right, n)
                ==> #[trigger] closure_in_range(r, n),
        forall|s: Seq<Seq<char>>|
            filter_tree::int_fits_typed(*left, s) && filter_tree::int_fits_typed(*right, s)
                ==> #[trigger] closure_fits(r, s),
{
    let a = compile_closure_i64(left);
    let b = compile_closure_i64(right);
    let r = BoolClosure::Compare(op, a, b);
    assert forall|i: Seq<i64>, s: Seq<Seq<char>>| #[trigger]
        closure_holds(r, i, s) == filter_tree::compares(
            op,
            filter_tree::int_value_typed(*left, i, s),
            filter_tree::int_value_typed(*right, i, s),
        ) by {
        assert(int_given(a, i, s) == filter_tree::int_value_typed(*left, i, s));
        assert(int_given(b, i, s) == filter_tree::int_value_typed(*right, i, s));
    }
    assert forall|n: nat|
        filter_tree::int_in_range(*left, n) && filter_tree::int_in_range(
            *right,
            n,
        ) implies #[trigger] closure_in_range(r, n) by {
        assert(closure_int_in_range(a, n));
        assert(closure_int_in_range(b, n));
    }
    assert forall|s: Seq<Seq<char>>|
        filter_tree::int_fits_typed(*left, s) && filter_tree::int_fits_typed(
            *right,
            s,
        ) implies #[trigger] closure_fits(r, s) by {
        assert(closure_int_fits(a, s) == filter_tree::int_fits_typed(*left, s));
        assert(closure_int_fits(b, s) == filter_tree::int_fits_typed(*right, s));
    }
    r
}

/// Compiles a node to a closure over typed arrays. What only values can tell becomes false.
pub fn compile_closure_bool(node: &FilterNode) -> (r: BoolClosure)
    ensures
        bool_means(r, *node),
    decreases node,
{
    match node {
        FilterNode::And(a, b) => {
            let x = compile_closure_bool(&**a);
            let y = compile_closure_bool(&**b);
            let r = BoolClosure::And(Box::new(x), Box::new(y));
            proof {
                lemma_bool_pair(r, *node, x, y, **a, **b);
            }
            r
        },
        FilterNode::Or(a, b) => {
            let x = compile_closure_bool(&**a);
            let y = compile_closure_bool(&**b);
            let r = BoolClosure::Or(Box::new(x), Box::new(y));
            proof {
                lemma_bool_pair(r, *node, x, y, **a, **b);
            }
            r
        },
        FilterNode::Not(a) => {
            let x = compile_closure_bool(&**a);
            let r = BoolClosure::Not(Box::new(x));
            assert forall|i: Seq<i64>, s: Seq<Seq<char>>| #[trigger]
                closure_holds(r, i, s) == filter_tree::typed_holds(*node, i, s) by {
                assert(closure_holds(x, i, s) == filter_tree::typed_holds(**a, i, s));
            }
            assert forall|k: nat| filter_tree::in_range(*node, k) implies #[trigger]
                closure_in_range(r, k) by {
                assert(closure_in_range(x, k));
            }
            assert forall|s: Seq<Seq<char>>|
                filter_tree::fits_typed(*node, s) implies #[trigger] closure_fits(r, s) by {
                assert(closure_fits(x, s));
            }
            r
        },
        FilterNode::GeExpr { left, right } => compile_compare(IntCmp::Ge, left, right),
        FilterNode::GtExpr { left, right } => compile_compare(IntCmp::Gt, left, right),
        FilterNode::LeExpr { left, right } => compile_compare(IntCmp::Le, left, right),
        FilterNode::LtExpr { left, right } => compile_compare(IntCmp::Lt, left, right),
        FilterNode::EqExpr { left, right } => compile_compare(IntCmp::Eq, left, right),
        FilterNode::NeExpr { left, right } => compile_compare(IntCmp::Ne, left, right),
        FilterNode::BoolLiteral { val } => BoolClosure::Const(*val),
        FilterNode::BoolVar { idx } => BoolClosure::Var(*idx),
        FilterNode::InIntLinear { idx, vals } => BoolClosure::IntAmong(*idx, clone_ints(vals)),
        FilterNode::InIntHash { idx, set } => BoolClosure::IntInSet(*idx, set.clone()),
        _ => match node.int_test() {
            Some(t) => BoolClosure::Test(t),
            None => match (node.str_index(), compile_text_test(node)) {
                (Some(idx), Some(t)) => BoolClosure::Text(idx, t),
                _ => BoolClosure::Const(false),
            },
        },
    }
}

proof fn lemma_bool_pair(
    r: BoolClosure,
    n: FilterNode,
    x: BoolClosure,
    y: BoolClosure,
    a: FilterNode,
    b: FilterNode,
)
    requires
        bool_means(x, a),
        bool_means(y, b),
        ({
            let (x, y, a, b) = (Box::new(x), Box::new(y), Box::new(a), Box::new(b));
            ||| r == BoolClosure::And(x, y) && n == FilterNode::And(a, b)
            ||| r == BoolClosure::Or(x, y) && n == FilterNode::Or(a, b)
        }),
    ensures
        bool_means(r, n),
{
    assert forall|i: Seq<i64>, s: Seq<Seq<char>>| #[trigger]
        closure_holds(r, i, s) == filter_tree::typed_holds(n, i, s) by {
        assert(closure_holds(x, i, s) == filter_tree::typed_holds(a, i, s));
        assert(closure_holds(y, i, s) == filter_tree::typed_holds(b, i, s));
    }
    assert forall|k: nat| filter_tree::in_range(n, k) implies #[trigger] closure_in_range(
        r,
        k,
    ) by {
        assert(closure_in_range(x, k));
        assert(closure_in_range(y, k));
    }
    assert forall|s: Seq<Seq<char>>| filter_tree::fits_typed(n, s) implies #[trigger] closure_fits(
        r,
        s,
    ) by {
        assert(closure_fits(x, s));
        assert(closure_fits(y, s));
    }
}

/// What a node that tests a string holds.
pub enum TextModel {
    Eq(Seq<char>),
    Ne(Seq<char>),
    Among(Seq<Seq<char>>),
    InSet(Set<Seq<char>>),
    StartsWith(Seq<char>),
    EndsWith(Seq<char>),
    Contains(Seq<char>),
    Matches(Seq<char>),
    ContainsAny(Seq<Seq<char>>),
    Words(Seq<Seq<char>>, usize),
}

/// What a [`FilterNode`] stands for.
pub enum Filt {
    Test(IntTest),
    IntAmong(usize, Seq<i64>),
    IntInSet(usize, Set<i64>),
    Text(usize, TextModel),
    Compare(IntCmp, I64Expr, I64Expr),
    BoolVar(usize),
    BoolLiteral(bool),
    ExistsInt(usize, IntCmp, i64),
    ExistsText(usize, Seq<char>),
    ExistsAmong(usize, Seq<i64>),
    ExistsEntry(usize, IntCmp, i64),
    KeyText(usize, Seq<char>, Seq<char>),
    KeyInt(usize, Seq<char>, IntCmp, i64),
    Call(FnModel, Seq<usize>, IntCmp, i64),
    And(Box<Filt>, Box<Filt>),
    Or(Box<Filt>, Box<Filt>),
    Not(Box<Filt>),
}

/// What a node stands for.
pub open spec fn node_view(n: FilterNode) -> Filt
    decreases n,
{
    match n {
        FilterNode::And(a, b) => Filt::And(Box::new(node_view(*a)), Box::new(node_view(*b))),
        FilterNode::Or(a, b) => Filt::Or(Box::new(node_view(*a)), Box::new(node_view(*b))),
        FilterNode::Not(a) => Filt::Not(Box::new(node_view(*a))),
        FilterNode::BoolLiteral { val } => Filt::BoolLiteral(val),
        FilterNode::BoolVar { idx } => Filt::BoolVar(idx),
        FilterNode::GeExpr { left, right } => Filt::Compare(IntCmp::Ge, left, right),
        FilterNode::GtExpr { left, right } => Filt::Compare(IntCmp::Gt, left, right),
        FilterNode::LeExpr { left, right } => Filt::Compare(IntCmp::Le, left, right),
        FilterNode::LtExpr { left, right } => Filt::Compare(IntCmp::Lt, left, right),
        FilterNode::EqExpr { left, right } => Filt::Compare(IntCmp::Eq, left, right),
        FilterNode::NeExpr { left, right } => Filt::Compare(IntCmp::Ne, left, right),
        FilterNode::InIntLinear { idx, vals } => Filt::IntAmong(idx, vals@),
        FilterNode::InIntHash { idx, set } => Filt::IntInSet(idx, set@),
        FilterNode::EqStr { idx, val } => Filt::Text(idx, TextModel::Eq(val@)),
        FilterNode::NeStr { idx, val } => Filt::Text(idx, TextModel::Ne(val@)),
        FilterNode::InStrLinear { idx, vals } => Filt::Text(
            idx,
            TextModel::Among(objects::texts(vals@)),
        ),
        FilterNode::InStrHash { idx, set } => Filt::Text(
            idx,
            TextModel::InSet(objects::texts(set@).to_set()),
        ),
        FilterNode::StartsWith { idx, prefix } => Filt::Text(idx, TextModel::StartsWith(prefix@)),
        FilterNode::EndsWith { idx, suffix } => Filt::Text(idx, TextModel::EndsWith(suffix@)),
        FilterNode::Contains { idx, substring } => Filt::Text(
            idx,
            TextModel::Contains(substring@),
        ),
        FilterNode::Matches { idx, regex } => Filt::Text(idx, TextModel::Matches(regex@)),
        FilterNode::ContainsAny { idx, needles } => Filt::Text(
            idx,
            TextModel::ContainsAny(objects::texts(needles@)),
        ),
        FilterNode::AhoContains { idx, ac, min } => Filt::Text(idx, TextModel::Words(ac@, min)),
        FilterNode::ExistsIntList { collection_idx, cmp_val, cmp } => Filt::ExistsInt(
            collection_idx,
            cmp,
            cmp_val,
        ),
        FilterNode::ExistsStrEq { collection_idx, cmp_val } => Filt::ExistsText(
            collection_idx,
            cmp_val@,
        ),
        FilterNode::ExistsIntSet { collection_idx, vals } => Filt::ExistsAmong(
            collection_idx,
            vals@,
        ),
        FilterNode::ExistsMapInt { collection_idx, cmp_val, cmp } => Filt::ExistsEntry(
            collection_idx,
            cmp,
            cmp_val,
        ),
        FilterNode::MapIndexStrEq { map_idx, key, cmp_val } => Filt::KeyText(
            map_idx,
            key@,
            cmp_val@,
        ),
        FilterNode::MapIndexIntList { map_idx, key, cmp_val, cmp } => Filt::KeyInt(
            map_idx,
            key@,
            cmp,
            cmp_val,
        ),
        FilterNode::FnCmpResult { func, arg_idxs, cmp, literal } => Filt::Call(
            func@,
            arg_idxs@,
            cmp,
            literal,
        ),
        _ => match filter_tree::int_test_of(n) {
            Some(t) => Filt::Test(t),
            None => Filt::BoolLiteral(false),
        },
    }
}

/// What a compiler knows besides the expression: which names are boolean fields, where it
/// was told, and the registered functions, where there are any.
pub struct Known {
    pub bool_fields: Option<Seq<Seq<char>>>,
    pub functions: Option<Seq<FnModel>>,
}

/// The last position of a name.
pub open spec fn name_index(names: Seq<Seq<char>>, name: Seq<char>) -> Option<int>
    decreases names.len(),
{
    if names.len() == 0 {
        None
    } else if names.last() == name {
        Some(names.len() - 1)
    } else {
        name_index(names.drop_last(), name)
    }
}

/// The index of a name, which is added where it is new, and the names then.
pub open spec fn var_idx(names: Seq<Seq<char>>, name: Seq<char>) -> (usize, Seq<Seq<char>>) {
    match name_index(names, name) {
        Some(i) => (i as usize, names),
        None => (names.len() as usize, names.push(name)),
    }
}

/// The name of an identifier, or of fields reached from one, joined by dots.
pub open spec fn flat_name(e: Expr) -> Option<Seq<char>>
    decreases e,
{
    match e {
        Expr::Ident(name) => Some(name@),
        Expr::Select(sel) => match flat_name(sel.operand.expr) {
            Some(prefix) => Some(prefix + "."@ + sel.field@),
            None => None,
        },
        _ => None,
    }
}

/// What follows the last dot.
pub open spec fn last_segment(s: Seq<char>) -> Seq<char>
    decreases s.len(),
{
    if s.len() == 0 || s.last() == '.' {
        Seq::empty()
    } else {
        last_segment(s.drop_last()).push(s.last())
    }
}

/// The index of a dotted name, or of its last segment, where one is known.
pub open spec fn dotted_index(names: Seq<Seq<char>>, dotted: Seq<char>) -> Option<usize> {
    match name_index(names, dotted) {
        Some(i) => Some(i as usize),
        None => match name_index(names, last_segment(dotted)) {
            Some(i) => Some(i as usize),
            None => None,
        },
    }
}

/// The text of a literal string.
pub open spec fn string_literal(e: Expr) -> Option<Seq<char>> {
    match e {
        Expr::Literal(LiteralValue::String(s)) => Some(s@),
        _ => None,
    }
}

/// The value of a literal integer.
pub open spec fn int_literal(e: Expr) -> Option<i64> {
    match e {
        Expr::Literal(LiteralValue::Int(i)) => Some(i),
        _ => None,
    }
}

/// The operator of a call.
pub open spec fn op_of(call: CallExpr) -> Option<Operator> {
    ast::operator_of(call.func_name@)
}

/// The position of what an index expression indexes and of its index: the target and the
/// argument of a call with one, or the two arguments. The target is position -1.
pub open spec fn index_form(call: CallExpr) -> Option<(int, int)> {
    if op_of(call) != Some(Operator::Index) {
        None
    } else if call.target is Some && call.args@.len() == 1 {
        Some((-1, 0))
    } else if call.target is None && call.args@.len() == 2 {
        Some((0, 1))
    } else {
        None
    }
}

/// The target of a call, or an argument, by position.
pub open spec fn part(call: CallExpr, i: int) -> Expr {
    if i < 0 {
        call.target->0.expr
    } else {
        call.args@[i].expr
    }
}

/// The variable that an expression names, and the names then.
pub open spec fn resolve(names: Seq<Seq<char>>, e: Expr) -> (Option<usize>, Seq<Seq<char>>) {
    match e {
        Expr::Ident(name) => {
            let (i, n) = var_idx(names, name@);
            (Some(i), n)
        },
        Expr::Select(_) => match flat_name(e) {
            Some(dotted) => (dotted_index(names, dotted), names),
            None => (None, names),
        },
        Expr::Call(call) => match index_form(call) {
            Some((t, k)) => match (flat_name(part(call, t)), string_literal(part(call, k))) {
                (Some(prefix), Some(key)) => (dotted_index(names, prefix + "."@ + key), names),
                _ => (None, names),
            },
            None => (None, names),
        },
        _ => (None, names),
    }
}

/// The comparison that an operator makes.
pub open spec fn comparison(op: Option<Operator>) -> Option<IntCmp> {
    match op {
        Some(Operator::Equals) => Some(IntCmp::Eq),
        Some(Operator::NotEquals) => Some(IntCmp::Ne),
        Some(Operator::Less) => Some(IntCmp::Lt),
        Some(Operator::LessEquals) => Some(IntCmp::Le),
        Some(Operator::Greater) => Some(IntCmp::Gt),
        Some(Operator::GreaterEquals) => Some(IntCmp::Ge),
        _ => None,
    }
}

/// The comparison with its sides exchanged.
pub open spec fn flipped(c: IntCmp) -> IntCmp {
    match c {
        IntCmp::Eq => IntCmp::Eq,
        IntCmp::Ne => IntCmp::Ne,
        IntCmp::Lt => IntCmp::Gt,
        IntCmp::Le => IntCmp::Ge,
        IntCmp::Gt => IntCmp::Lt,
        IntCmp::Ge => IntCmp::Le,
    }
}

/// The operator that compares the same two with their sides exchanged.
pub open spec fn mirrored(op: Option<Operator>) -> Option<Operator> {
    match op {
        Some(Operator::Less) => Some(Operator::Greater),
        Some(Operator::LessEquals) => Some(Operator::GreaterEquals),
        Some(Operator::Greater) => Some(Operator::Less),
        Some(Operator::GreaterEquals) => Some(Operator::LessEquals),
        _ => op,
    }
}

/// A mirrored operator makes the comparison with its sides exchanged.
pub proof fn law_mirrored(op: Option<Operator>)
    ensures
        comparison(mirrored(op)) == maybe_flipped(comparison(op)),
        mirrored(mirrored(op)) == op,
{
}

/// Exchanging the sides of a comparison exchanges its operands.
pub proof fn law_flipped(c: IntCmp, a: i64, b: i64)
    ensures
        filter_tree::compares(flipped(c), a, b) == filter_tree::compares(c, b, a),
{
}

/// The arithmetic that an operator does before a comparison.
pub open spec fn arithmetic(op: Option<Operator>) -> Option<filter_tree::Arith> {
    match op {
        Some(Operator::Add) => Some(filter_tree::Arith::Add),
        Some(Operator::Substract) => Some(filter_tree::Arith::Sub),
        Some(Operator::Multiply) => Some(filter_tree::Arith::Mul),
        _ => None,
    }
}

/// A test of a variable as it is.
pub open spec fn plain_test(idx: usize, c: IntCmp, val: i64) -> Filt {
    Filt::Test(
        IntTest { idx, arith: filter_tree::Arith::Keep, operand: 0, cmp: c, val },
    )
}

/// A variable and a literal integer.
pub open spec fn var_and_int(names: Seq<Seq<char>>, v: Expr, l: Expr) -> (
    Option<(usize, i64)>,
    Seq<Seq<char>>,
) {
    let (idx, n) = resolve(names, v);
    match (idx, int_literal(l)) {
        (Some(i), Some(val)) => (Some((i, val)), n),
        _ => (None, n),
    }
}

/// The names after an expression was seen that may be an identifier.
pub open spec fn touched(names: Seq<Seq<char>>, e: Expr) -> Seq<Seq<char>> {
    match e {
        Expr::Ident(name) => var_idx(names, name@).1,
        _ => names,
    }
}

/// The index of an identifier, by the names before it was seen.
pub open spec fn ident_idx(names: Seq<Seq<char>>, e: Expr) -> Option<usize> {
    match e {
        Expr::Ident(name) => Some(var_idx(names, name@).0),
        _ => None,
    }
}

/// `var + literal`, `var - literal`, `var * literal` or `literal + var`, compared with a
/// literal.
#[verifier::opaque]
pub open spec fn arith_test(names: Seq<Seq<char>>, e: Expr, op: Option<Operator>, l: Expr) -> (
    Option<Filt>,
    Seq<Seq<char>>,
) {
    match (int_literal(l), e) {
        (Some(val), Expr::Call(call)) => if call.args@.len() != 2 {
            (None, names)
        } else {
            let a = call.args@[0].expr;
            let b = call.args@[1].expr;
            let n1 = touched(names, a);
            let n2 = touched(n1, b);
            match (ident_idx(names, a), int_literal(b)) {
                (Some(idx), Some(operand)) => match (arithmetic(op_of(call)), comparison(op)) {
                    (Some(arith), Some(c)) => (
                        Some(Filt::Test(IntTest { idx, arith, operand, cmp: c, val })),
                        n1,
                    ),
                    _ => (None, n1),
                },
                _ => match (int_literal(a), ident_idx(n1, b)) {
                    (Some(operand), Some(idx)) => match (
                        arithmetic(op_of(call)),
                        comparison(op),
                    ) {
                        (Some(filter_tree::Arith::Add), Some(c)) => (
                            Some(
                                Filt::Test(
                                    IntTest {
                                        idx,
                                        arith: filter_tree::Arith::Add,
                                        operand,
                                        cmp: c,
                                        val,
                                    },
                                ),
                            ),
                            n2,
                        ),
                        _ => (None, n2),
                    },
                    _ => (None, n2),
                },
            }
        },
        _ => (None, names),
    }
}

/// The variables that arguments name, up to the first that names none.
pub open spec fn resolve_all(names: Seq<Seq<char>>, args: Seq<IdedExpr>) -> (
    Option<Seq<usize>>,
    Seq<Seq<char>>,
)
    decreases args.len(),
{
    if args.len() == 0 {
        (Some(Seq::empty()), names)
    } else {
        let (before, n) = resolve_all(names, args.drop_last());
        match before {
            None => (None, n),
            Some(s) => {
                let (i, m) = resolve(n, args.last().expr);
                match i {
                    Some(idx) => (Some(s.push(idx)), m),
                    None => (None, m),
                }
            },
        }
    }
}

/// A call of a registered function with variables as its arguments, compared with a literal.
#[verifier::opaque]
pub open spec fn call_test(
    names: Seq<Seq<char>>,
    op: Option<Operator>,
    l: Expr,
    r: Expr,
    fns: Option<Seq<FnModel>>,
) -> (Option<Filt>, Seq<Seq<char>>) {
    match (fns, int_literal(r), l) {
        (Some(table), Some(literal), Expr::Call(call)) => if call.args@.len() < 1
            || call.target is Some {
            (None, names)
        } else {
            match filter_tree::function_named(table, call.func_name@, 0) {
                None => (None, names),
                Some(f) => {
                    let (idxs, n) = resolve_all(names, call.args@);
                    match (idxs, comparison(op)) {
                        (Some(s), Some(c)) => if s.len() > 3 {
                            (None, n)
                        } else {
                            (Some(Filt::Call(f, s, c, literal)), n)
                        },
                        _ => (None, n),
                    }
                },
            }
        },
        _ => (None, names),
    }
}

/// A string made of literals.
pub open spec fn str_expr(e: Expr) -> Option<StrExpr>
    decreases e,
{
    match e {
        Expr::Literal(LiteralValue::String(s)) => Some(StrExpr::Literal(s)),
        Expr::Call(call) => if call.args@.len() == 2 && op_of(call) == Some(Operator::Add) {
            match (str_expr(call.args@[0].expr), str_expr(call.args@[1].expr)) {
                (Some(a), Some(b)) => Some(StrExpr::Concat(Box::new(a), Box::new(b))),
                _ => None,
            }
        } else {
            None
        },
        _ => None,
    }
}

/// A string made of literals that have as many bytes as characters.
pub open spec fn byte_wide(e: StrExpr) -> bool
    decreases e,
{
    match e {
        StrExpr::Literal(s) => strings::byte_len(s@) == s@.len(),
        StrExpr::Var(_) => false,
        StrExpr::Concat(a, b) => byte_wide(*a) && byte_wide(*b),
    }
}

/// The integer expression of an operator on two.
pub open spec fn int_pair(op: Option<Operator>, a: I64Expr, b: I64Expr) -> Option<I64Expr> {
    match op {
        Some(Operator::Add) => Some(I64Expr::Add(Box::new(a), Box::new(b))),
        Some(Operator::Substract) => Some(I64Expr::Sub(Box::new(a), Box::new(b))),
        Some(Operator::Multiply) => Some(I64Expr::Mul(Box::new(a), Box::new(b))),
        Some(Operator::Divide) => Some(I64Expr::Div(Box::new(a), Box::new(b))),
        Some(Operator::Modulo) => Some(I64Expr::Mod(Box::new(a), Box::new(b))),
        _ => None,
    }
}

/// An integer expression over variables and literals. The size of a text is its length in
/// bytes, where that is the number of its characters.
pub open spec fn int_expr(names: Seq<Seq<char>>, e: Expr) -> (Option<I64Expr>, Seq<Seq<char>>)
    decreases e,
{
    match e {
        Expr::Literal(LiteralValue::Int(i)) => (Some(I64Expr::Literal(i)), names),
        Expr::Ident(name) => {
            let (i, n) = var_idx(names, name@);
            (Some(I64Expr::Var(i)), n)
        },
        Expr::Call(call) => if call.args@.len() == 2 {
            let (a, n1) = int_expr(names, call.args@[0].expr);
            match a {
                None => (None, n1),
                Some(x) => {
                    let (b, n2) = int_expr(n1, call.args@[1].expr);
                    match b {
                        None => (None, n2),
                        Some(y) => (int_pair(op_of(call), x, y), n2),
                    }
                },
            }
        } else if call.args@.len() == 1 {
            if op_of(call) == Some(Operator::Negate) {
                let (a, n1) = int_expr(names, call.args@[0].expr);
                match a {
                    None => (None, n1),
                    Some(x) => (Some(I64Expr::Neg(Box::new(x))), n1),
                }
            } else if call.func_name@ == "size"@ {
                match str_expr(call.args@[0].expr) {
                    Some(x) => if byte_wide(x) {
                        (Some(I64Expr::StrLen(Box::new(x))), names)
                    } else {
                        (None, names)
                    },
                    None => (None, names),
                }
            } else {
                (None, names)
            }
        } else {
            (None, names)
        },
        _ => (None, names),
    }
}

/// A comparison of two integer expressions. Two bare identifiers are left alone, for they
/// need not be integers.
#[verifier::opaque]
pub open spec fn general_test(names: Seq<Seq<char>>, op: Option<Operator>, l: Expr, r: Expr) -> (
    Option<Filt>,
    Seq<Seq<char>>,
) {
    if l is Ident && r is Ident {
        (None, names)
    } else {
        let (a, n1) = int_expr(names, l);
        match a {
            None => (None, n1),
            Some(x) => {
                let (b, n2) = int_expr(n1, r);
                match (b, comparison(op)) {
                    (Some(y), Some(c)) => (Some(Filt::Compare(c, x, y)), n2),
                    _ => (None, n2),
                }
            },
        }
    }
}

/// A plain test, where the operator compares.
pub open spec fn maybe_test(idx: usize, c: Option<IntCmp>, val: i64) -> Option<Filt> {
    match c {
        Some(x) => Some(plain_test(idx, x, val)),
        None => None,
    }
}

pub open spec fn maybe_flipped(c: Option<IntCmp>) -> Option<IntCmp> {
    match c {
        Some(x) => Some(flipped(x)),
        None => None,
    }
}

/// The compilation of a comparison of integers: the specialised forms are tried in turn,
/// and then the general one. What stands behind a literal is tested as if it stood before
/// it, with the comparison mirrored.
#[verifier::opaque]
pub open spec fn int_test(
    names: Seq<Seq<char>>,
    op: Option<Operator>,
    l: Expr,
    r: Expr,
    fns: Option<Seq<FnModel>>,
) -> (Option<Filt>, Seq<Seq<char>>) {
    let (f1, n1) = var_and_int(names, l, r);
    match f1 {
        Some((idx, val)) => (maybe_test(idx, comparison(op), val), n1),
        None => {
            let (f2, n2) = var_and_int(n1, r, l);
            match f2 {
                Some((idx, val)) => (maybe_test(idx, maybe_flipped(comparison(op)), val), n2),
                None => {
                    let (f3, n3) = arith_test(n2, l, op, r);
                    let (f4, n4) = arith_test(n3, r, mirrored(op), l);
                    let (f5, n5) = call_test(n4, op, l, r, fns);
                    let (f6, n6) = call_test(n5, mirrored(op), r, l, fns);
                    if f3 is Some {
                        (f3, n3)
                    } else if f4 is Some {
                        (f4, n4)
                    } else if f5 is Some {
                        (f5, n5)
                    } else if f6 is Some {
                        (f6, n6)
                    } else {
                        general_test(n6, op, l, r)
                    }
                },
            }
        },
    }
}

/// The compilation of an equality of strings.
#[verifier::opaque]
pub open spec fn str_test(names: Seq<Seq<char>>, op: Option<Operator>, l: Expr, r: Expr) -> (
    Option<Filt>,
    Seq<Seq<char>>,
) {
    if op != Some(Operator::Equals) && op != Some(Operator::NotEquals) {
        (None, names)
    } else {
        let (i, n1) = resolve(names, l);
        let (j, n2) = resolve(n1, r);
        match i {
            Some(idx) => (text_equality(idx, op, string_literal(r)), n1),
            None => match j {
                Some(idx) => (text_equality(idx, op, string_literal(l)), n2),
                None => (None, n2),
            },
        }
    }
}

pub open spec fn text_equality(idx: usize, op: Option<Operator>, s: Option<Seq<char>>) -> Option<
    Filt,
> {
    match s {
        Some(t) => Some(
            Filt::Text(
                idx,
                if op == Some(Operator::Equals) {
                    TextModel::Eq(t)
                } else {
                    TextModel::Ne(t)
                },
            ),
        ),
        None => None,
    }
}

/// The node of a test of a string by a function.
pub open spec fn text_function(func: Seq<char>, idx: usize, s: Seq<char>) -> Option<Filt> {
    if func == "startsWith"@ {
        Some(Filt::Text(idx, TextModel::StartsWith(s)))
    } else if func == "endsWith"@ {
        Some(Filt::Text(idx, TextModel::EndsWith(s)))
    } else if func == "contains"@ {
        Some(Filt::Text(idx, TextModel::Contains(s)))
    } else if func == "matches"@ {
        if patterns::regex_valid(s) {
            Some(Filt::Text(idx, TextModel::Matches(s)))
        } else {
            None
        }
    } else {
        None
    }
}

/// The compilation of `func(receiver, "literal")`.
#[verifier::opaque]
pub open spec fn str_call(names: Seq<Seq<char>>, func: Seq<char>, receiver: Expr, arg: Expr) -> (
    Option<Filt>,
    Seq<Seq<char>>,
) {
    let (i, n) = resolve(names, receiver);
    match (i, string_literal(arg)) {
        (Some(idx), Some(s)) => (text_function(func, idx, s), n),
        _ => (None, n),
    }
}

/// The compilation of `target.func("literal")`.
#[verifier::opaque]
pub open spec fn str_member(names: Seq<Seq<char>>, call: CallExpr) -> (
    Option<Filt>,
    Seq<Seq<char>>,
) {
    let func = call.func_name@;
    if func != "startsWith"@ && func != "endsWith"@ && func != "contains"@ && func != "matches"@ {
        (None, names)
    } else {
        match call.target {
            None => (None, names),
            Some(target) => {
                let (i, n) = resolve(names, target.expr);
                if i is None || call.args@.len() == 0 {
                    (None, n)
                } else {
                    match string_literal(call.args@[0].expr) {
                        Some(s) => (text_function(func, i->0, s), n),
                        None => (None, n),
                    }
                }
            },
        }
    }
}

/// The integers of a list that holds nothing else.
pub open spec fn all_ints(s: Seq<IdedExpr>) -> Option<Seq<i64>>
    decreases s.len(),
{
    if s.len() == 0 {
        Some(Seq::empty())
    } else {
        match (all_ints(s.drop_last()), int_literal(s.last().expr)) {
            (Some(v), Some(i)) => Some(v.push(i)),
            _ => None,
        }
    }
}

/// The strings of a list that holds nothing else.
pub open spec fn all_strings(s: Seq<IdedExpr>) -> Option<Seq<Seq<char>>>
    decreases s.len(),
{
    if s.len() == 0 {
        Some(Seq::empty())
    } else {
        match (all_strings(s.drop_last()), string_literal(s.last().expr)) {
            (Some(v), Some(t)) => Some(v.push(t)),
            _ => None,
        }
    }
}

/// The compilation of `var in [literals]`: a scan of up to 16, a set of more.
#[verifier::opaque]
pub open spec fn member_test(names: Seq<Seq<char>>, l: Expr, r: Expr) -> (
    Option<Filt>,
    Seq<Seq<char>>,
) {
    let (i, n) = resolve(names, l);
    match (i, r) {
        (Some(idx), Expr::List(list)) => match (
            all_ints(list.elements@),
            all_strings(list.elements@),
        ) {
            (Some(v), _) => if v.len() <= 16 {
                (Some(Filt::IntAmong(idx, v)), n)
            } else {
                (Some(Filt::IntInSet(idx, v.to_set())), n)
            },
            (None, Some(v)) => if v.len() <= 16 {
                (Some(Filt::Text(idx, TextModel::Among(v))), n)
            } else {
                (Some(Filt::Text(idx, TextModel::InSet(v.to_set()))), n)
            },
            _ => (None, n),
        },
        _ => (None, n),
    }
}

/// `var.contains("literal")`: the variable and the literal.
pub open spec fn contains_term(e: Expr) -> Option<(Seq<char>, Seq<char>)> {
    match e {
        Expr::Call(call) => if call.func_name@ != "contains"@ || call.args@.len() == 0 {
            None
        } else {
            match call.target {
                Some(t) => match (t.expr, string_literal(call.args@[0].expr)) {
                    (Expr::Ident(name), Some(s)) => Some((name@, s)),
                    _ => None,
                },
                None => None,
            }
        },
        _ => None,
    }
}

/// The terms of a tree of one operator, where all its leaves are `contains` terms.
pub open spec fn contains_terms(op: Operator, e: Expr) -> Option<Seq<(Seq<char>, Seq<char>)>>
    decreases e,
{
    match e {
        Expr::Call(call) => if op_of(call) == Some(op) && call.args@.len() == 2 {
            match (contains_terms(op, call.args@[0].expr), contains_terms(op, call.args@[1].expr)) {
                (Some(a), Some(b)) => Some(a + b),
                _ => None,
            }
        } else {
            match contains_term(e) {
                Some(t) => Some(seq![t]),
                None => None,
            }
        },
        _ => None,
    }
}

/// All the terms are about one variable.
pub open spec fn one_variable(terms: Seq<(Seq<char>, Seq<char>)>) -> bool {
    forall|i: int| 0 <= i < terms.len() ==> (#[trigger] terms[i]).0 == terms[0].0
}

/// The literals of the terms.
pub open spec fn term_words(terms: Seq<(Seq<char>, Seq<char>)>) -> Seq<Seq<char>> {
    terms.map_values(|t: (Seq<char>, Seq<char>)| t.1)
}

/// The compilation of a disjunction (`any`) or a conjunction of `contains` on one variable
/// into one scan.
#[verifier::opaque]
pub open spec fn merged_contains(names: Seq<Seq<char>>, any: bool, e: Expr) -> (
    Option<Filt>,
    Seq<Seq<char>>,
) {
    match contains_terms(
        if any {
            Operator::LogicalOr
        } else {
            Operator::LogicalAnd
        },
        e,
    ) {
        None => (None, names),
        Some(terms) => if terms.len() < 2 || !one_variable(terms) {
            (None, names)
        } else {
            let words = term_words(terms);
            let (idx, n) = var_idx(names, terms[0].0);
            if any && words.len() <= 4 {
                (Some(Filt::Text(idx, TextModel::ContainsAny(words))), n)
            } else if patterns::word_set_fits(words) {
                (
                    Some(
                        Filt::Text(
                            idx,
                            TextModel::Words(
                                words,
                                if any {
                                    1
                                } else {
                                    words.len() as usize
                                },
                            ),
                        ),
                    ),
                    n,
                )
            } else {
                (None, n)
            }
        },
    }
}

/// What a loop of a filter runs over: a variable, or an entry of a map in one.
pub enum SourceModel {
    Var(usize),
    Key(usize, Seq<char>),
}

/// `map["key"]`: the variable and the key.
pub open spec fn map_key(names: Seq<Seq<char>>, e: Expr) -> (
    Option<(usize, Seq<char>)>,
    Seq<Seq<char>>,
) {
    match e {
        Expr::Call(call) => match index_form(call) {
            Some((t, k)) => {
                let (i, n) = resolve(names, part(call, t));
                match (i, string_literal(part(call, k))) {
                    (Some(idx), Some(key)) => (Some((idx, key)), n),
                    _ => (None, n),
                }
            },
            None => (None, names),
        },
        _ => (None, names),
    }
}

/// What a loop runs over.
pub open spec fn loop_source(names: Seq<Seq<char>>, e: Expr) -> (
    Option<SourceModel>,
    Seq<Seq<char>>,
) {
    let (k, n1) = map_key(names, e);
    match k {
        Some((idx, key)) => (Some(SourceModel::Key(idx, key)), n1),
        None => {
            let (i, n2) = resolve(n1, e);
            match i {
                Some(idx) => (Some(SourceModel::Var(idx)), n2),
                None => (None, n2),
            }
        },
    }
}

pub open spec fn is_ident(e: Expr, name: Seq<char>) -> bool {
    e matches Expr::Ident(n) && n@ == name
}

/// `!accu`, by the name of the accumulator.
pub open spec fn is_not_ident(e: Expr, name: Seq<char>) -> bool {
    e matches Expr::Call(call) && op_of(call) == Some(Operator::LogicalNot) && call.args@.len()
        == 1 && is_ident(call.args@[0].expr, name)
}

/// A condition that lets a loop go on while nothing was found: `!accu`, or
/// `@not_strictly_false(!accu)`.
pub open spec fn goes_on(e: Expr, accu: Seq<char>) -> bool {
    is_not_ident(e, accu) || (e matches Expr::Call(call) && op_of(call) == Some(
        Operator::NotStrictlyFalse,
    ) && call.args@.len() == 1 && is_not_ident(call.args@[0].expr, accu))
}

/// The position of the condition in the step `accu || condition` of an `exists` loop: one
/// that starts with false, goes on while nothing was found, and gives its accumulator.
pub open spec fn exists_condition(comp: ComprehensionExpr) -> Option<int> {
    match (comp.accu_init.expr, comp.loop_step.expr) {
        (Expr::Literal(LiteralValue::Boolean(b)), Expr::Call(step)) => if b || op_of(step) != Some(
            Operator::LogicalOr,
        ) || step.args@.len() != 2 || !goes_on(comp.loop_cond.expr, comp.accu_var@) || !is_ident(
            comp.result.expr,
            comp.accu_var@,
        ) {
            None
        } else if is_ident(step.args@[0].expr, comp.accu_var@) {
            Some(1)
        } else if is_ident(step.args@[1].expr, comp.accu_var@) {
            Some(0)
        } else {
            None
        },
        _ => None,
    }
}

/// The name that stands for what a loop tests: the items of a list, or with two variables
/// the values of a map.
pub open spec fn tested_name(comp: ComprehensionExpr) -> Seq<char> {
    match comp.iter_var2 {
        Some(v) => v@,
        None => comp.iter_var@,
    }
}

/// The position, in a condition on two, of the variable of the loop, which is not the
/// accumulator.
pub open spec fn loop_variable(comp: ComprehensionExpr, cond: CallExpr) -> Option<usize> {
    let name = tested_name(comp);
    if cond.args@.len() != 2 || name == comp.accu_var@ {
        None
    } else if is_ident(cond.args@[0].expr, name) {
        Some(0)
    } else if is_ident(cond.args@[1].expr, name) {
        Some(1)
    } else {
        None
    }
}

/// The node of an `exists` loop with a condition on its variable. The values of a map are
/// tested as integers only, and only those of a variable.
pub open spec fn exists_node(
    source: SourceModel,
    is_map: bool,
    op: Option<Operator>,
    cond: CallExpr,
    at: usize,
) -> Option<Filt> {
    if op == Some(Operator::In) {
        match (cond.args@[1].expr, source, is_map) {
            (Expr::List(list), SourceModel::Var(idx), false) => match all_ints(list.elements@) {
                Some(v) => Some(Filt::ExistsAmong(idx, v)),
                None => None,
            },
            _ => None,
        }
    } else {
        let literal = cond.args@[1 - at].expr;
        let mirror = if at == 1 {
            mirrored(op)
        } else {
            op
        };
        match (int_literal(literal), string_literal(literal)) {
            (Some(val), _) => match (comparison(mirror), source, is_map) {
                (Some(c), SourceModel::Key(idx, key), false) => Some(
                    Filt::KeyInt(idx, key, c, val),
                ),
                (Some(c), SourceModel::Var(idx), true) => Some(Filt::ExistsEntry(idx, c, val)),
                (Some(c), SourceModel::Var(idx), false) => Some(Filt::ExistsInt(idx, c, val)),
                _ => None,
            },
            (None, Some(s)) => if op == Some(Operator::Equals) && !is_map {
                match source {
                    SourceModel::Key(idx, key) => Some(Filt::KeyText(idx, key, s)),
                    SourceModel::Var(idx) => Some(Filt::ExistsText(idx, s)),
                }
            } else {
                None
            },
            _ => None,
        }
    }
}

/// The compilation of an `exists` loop, by the shape that the macro expands to.
#[verifier::opaque]
pub open spec fn exists_test(names: Seq<Seq<char>>, comp: ComprehensionExpr) -> (
    Option<Filt>,
    Seq<Seq<char>>,
) {
    let (source, n) = loop_source(names, comp.iter_range.expr);
    match (source, exists_condition(comp)) {
        (Some(src), Some(k)) => match comp.loop_step.expr->Call_0.args@[k].expr {
            Expr::Call(cond) => match loop_variable(comp, cond) {
                Some(at) => (
                    exists_node(src, comp.iter_var2 is Some, op_of(cond), cond, at),
                    n,
                ),
                None => (None, n),
            },
            _ => (None, n),
        },
        _ => (None, n),
    }
}

/// The compilation of an expression to a filter: the filter or why there is none, and the
/// names of the variables then.
pub open spec fn filter_of(names: Seq<Seq<char>>, e: Expr, known: Known) -> (
    Result<Filt, Seq<char>>,
    Seq<Seq<char>>,
)
    decreases e,
{
    match e {
        Expr::Literal(LiteralValue::Boolean(b)) => (Ok(Filt::BoolLiteral(b)), names),
        Expr::Ident(name) => if known.bool_fields matches Some(s) && !s.contains(name@) {
            (Err("unsupported expr kind in filter tree"@), names)
        } else {
            let (i, n) = var_idx(names, name@);
            (Ok(Filt::BoolVar(i)), n)
        },
        Expr::Comprehension(comp) => {
            let (f, n) = exists_test(names, *comp);
            match f {
                Some(x) => (Ok(x), n),
                None => (Err("unsupported comprehension in filter tree"@), n),
            }
        },
        Expr::Call(call) => {
            let op = op_of(call);
            let logic = call.args@.len() == 2 && (op == Some(Operator::LogicalOr) || op == Some(
                Operator::LogicalAnd,
            ));
            if logic {
                let (f, n) = merged_contains(names, op == Some(Operator::LogicalOr), e);
                match f {
                    Some(x) => (Ok(x), n),
                    None => {
                        let (a, n1) = filter_of(n, call.args@[0].expr, known);
                        match a {
                            Err(m) => (Err(m), n1),
                            Ok(x) => {
                                let (b, n2) = filter_of(n1, call.args@[1].expr, known);
                                match b {
                                    Err(m) => (Err(m), n2),
                                    Ok(y) => (
                                        Ok(
                                            if op == Some(Operator::LogicalOr) {
                                                Filt::Or(Box::new(x), Box::new(y))
                                            } else {
                                                Filt::And(Box::new(x), Box::new(y))
                                            },
                                        ),
                                        n2,
                                    ),
                                }
                            },
                        }
                    },
                }
            } else if op == Some(Operator::LogicalNot) && call.args@.len() == 1 {
                let (a, n1) = filter_of(names, call.args@[0].expr, known);
                match a {
                    Err(m) => (Err(m), n1),
                    Ok(x) => (Ok(Filt::Not(Box::new(x))), n1),
                }
            } else {
                let (f, n) = test_of(names, call, known);
                match f {
                    Some(x) => (Ok(x), n),
                    None => (Err("unsupported filter expr: "@ + call.func_name@), n),
                }
            }
        },
        _ => (Err("unsupported expr kind in filter tree"@), names),
    }
}

/// The compilation of a call that is no logical operator.
#[verifier::opaque]
pub open spec fn test_of(names: Seq<Seq<char>>, call: CallExpr, known: Known) -> (
    Option<Filt>,
    Seq<Seq<char>>,
) {
    let two = call.args@.len() == 2;
    let a = call.args@[0].expr;
    let b = call.args@[1].expr;
    let op = op_of(call);
    let (f1, n1) = if two {
        str_call(names, call.func_name@, a, b)
    } else {
        (None, names)
    };
    let (f2, n2) = str_member(n1, call);
    let (f3, n3) = int_test(n2, op, a, b, known.functions);
    let (f4, n4) = str_test(n3, op, a, b);
    if f1 is Some {
        (f1, n1)
    } else if f2 is Some {
        (f2, n2)
    } else if !two {
        (None, n2)
    } else if f3 is Some {
        (f3, n3)
    } else if f4 is Some {
        (f4, n4)
    } else if op == Some(Operator::In) {
        member_test(n4, a, b)
    } else {
        (None, n4)
    }
}

/// The variables of a filter while it is compiled.
pub struct FilterCtx {
    pub var_names: Vec<String>,
    /// The names of the boolean fields, where the fields are declared.
    pub bool_fields: Option<Vec<String>>,
}

/// What is known, besides the names, while a filter is compiled.
pub open spec fn known_in(ctx: FilterCtx, functions: Option<&FnTable>) -> Known {
    Known {
        bool_fields: match ctx.bool_fields {
            Some(s) => Some(objects::texts(s@)),
            None => None,
        },
        functions: match functions {
            Some(t) => Some(t@),
            None => None,
        },
    }
}

/// What an optional node stands for.
pub open spec fn opt_node(o: Option<Box<FilterNode>>) -> Option<Filt> {
    match o {
        Some(n) => Some(node_view(*n)),
        None => None,
    }
}

pub(crate) proof fn lemma_name_index(names: Seq<Seq<char>>, name: Seq<char>)
    ensures
        match name_index(names, name) {
            Some(i) => 0 <= i < names.len() && names[i] == name,
            None => !names.contains(name),
        },
    decreases names.len(),
{
    if names.len() > 0 && names.last() != name {
        lemma_name_index(names.drop_last(), name);
        if name_index(names.drop_last(), name) is None && names.contains(name) {
            let i = choose|i: int| 0 <= i < names.len() && names[i] == name;
            assert(names.drop_last()[i] == name);
        }
    }
}

impl FilterCtx {
    /// The names of the variables.
    pub open spec fn names(&self) -> Seq<Seq<char>> {
        objects::texts(self.var_names@)
    }

    /// A context without variables.
    pub fn new() -> (r: FilterCtx)
        ensures
            r.names() == Seq::<Seq<char>>::empty(),
            r.bool_fields is None,
    {
        let r = FilterCtx { var_names: Vec::new(), bool_fields: None };
        assert(r.names() =~= Seq::<Seq<char>>::empty());
        r
    }

    /// A context with the fields of a schema, in their order.
    pub fn with_schema(field_names: &Vec<String>, bool_fields: &Vec<String>) -> (r: FilterCtx)
        ensures
            r.names() == objects::texts(field_names@),
            r.bool_fields matches Some(s) && objects::texts(s@) == objects::texts(bool_fields@),
    {
        FilterCtx {
            var_names: clone_texts(field_names),
            bool_fields: Some(clone_texts(bool_fields)),
        }
    }

    fn find(&self, name: &str) -> (r: Option<usize>)
        ensures
            match r {
                Some(i) => name_index(self.names(), name@) == Some(i as int) && i
                    < self.var_names@.len(),
                None => name_index(self.names(), name@) is None,
            },
    {
        let ghost names = self.names();
        let mut i: usize = self.var_names.len();
        assert(names.subrange(0, names.len() as int) =~= names);
        while i > 0
            invariant
                i <= self.var_names@.len(),
                names == self.names(),
                name_index(names, name@) == name_index(names.subrange(0, i as int), name@),
            decreases i,
        {
            let ghost pre = names.subrange(0, i as int);
            assert(pre.last() == self.var_names@[i - 1]@);
            assert(pre.drop_last() =~= names.subrange(0, i - 1));
            if strings::str_eq(self.var_names[i - 1].as_str(), name) {
                return Some(i - 1);
            }
            i -= 1;
        }
        None
    }

    /// The index of a name, which is added where it is new.
    pub fn var_idx(&mut self, name: &str) -> (r: usize)
        ensures
            (r, final(self).names()) == var_idx(old(self).names(), name@),
            final(self).bool_fields == old(self).bool_fields,
    {
        match self.find(name) {
            Some(i) => i,
            None => {
                let idx = self.var_names.len();
                self.var_names.push(name.to_owned());
                assert(self.names() =~= old(self).names().push(name@));
                idx
            },
        }
    }

    fn dotted(&self, dotted: &str) -> (r: Option<usize>)
        ensures
            r == dotted_index(self.names(), dotted@),
    {
        match self.find(dotted) {
            Some(i) => Some(i),
            None => self.find(bare_name(dotted).as_str()),
        }
    }
}

proof fn lemma_last_segment(s: Seq<char>, i: int)
    requires
        0 <= i <= s.len(),
        forall|j: int| i <= j < s.len() ==> s[j] != '.',
        i > 0 ==> s[i - 1] == '.',
    ensures
        last_segment(s) == s.subrange(i, s.len() as int),
    decreases s.len(),
{
    if s.len() == i {
        assert(s.subrange(i, s.len() as int) =~= Seq::<char>::empty());
    } else {
        lemma_last_segment(s.drop_last(), i);
        assert(s.subrange(i, s.len() as int) =~= s.drop_last().subrange(
            i,
            s.len() - 1,
        ).push(s.last()));
    }
}

/// What follows the last dot.
fn bare_name(s: &str) -> (r: String)
    ensures
        r@ == last_segment(s@),
{
    let n = s.unicode_len();
    let mut i: usize = n;
    while i > 0 && s.get_char(i - 1) != '.'
        invariant
            i <= n,
            n == s@.len(),
            forall|j: int| i <= j < n ==> s@[j] != '.',
        decreases i,
    {
        i -= 1;
    }
    proof {
        lemma_last_segment(s@, i as int);
    }
    s.substring_char(i, n).to_owned()
}

/// The name of an identifier, or of fields reached from one, joined by dots.
pub fn flatten_ident(expr: &Expr) -> (r: Option<String>)
    ensures
        filter_tree::opt_text(r) == flat_name(*expr),
    decreases expr,
{
    match expr {
        Expr::Ident(name) => Some(name.clone()),
        Expr::Select(sel) => match flatten_ident(&sel.operand.expr) {
            Some(prefix) => {
                let mut s = prefix;
                s.append(".");
                s.append(sel.field.as_str());
                Some(s)
            },
            None => None,
        },
        _ => None,
    }
}

fn string_of(e: &Expr) -> (r: Option<&String>)
    ensures
        match r {
            Some(s) => string_literal(*e) == Some(s@),
            None => string_literal(*e) is None,
        },
{
    match e {
        Expr::Literal(LiteralValue::String(s)) => Some(s),
        _ => None,
    }
}

fn int_of(e: &Expr) -> (r: Option<i64>)
    ensures
        r == int_literal(*e),
{
    match e {
        Expr::Literal(LiteralValue::Int(i)) => Some(*i),
        _ => None,
    }
}

/// What an index expression indexes, and its index.
fn index_parts(call: &CallExpr) -> (r: Option<(&Expr, &Expr)>)
    ensures
        match r {
            Some((t, k)) => index_form(*call) matches Some((i, j)) && *t == part(*call, i) && *k
                == part(*call, j),
            None => index_form(*call) is None,
        },
{
    if ast::operator_named(call.func_name.as_str()) != Some(Operator::Index) {
        return None;
    }
    match &call.target {
        Some(t) => if call.args.len() == 1 {
            Some((&t.expr, &call.args[0].expr))
        } else {
            None
        },
        None => if call.args.len() == 2 {
            Some((&call.args[0].expr, &call.args[1].expr))
        } else {
            None
        },
    }
}

/// The variable that an expression names.
pub fn resolve_var(ctx: &mut FilterCtx, expr: &Expr) -> (r: Option<usize>)
    ensures
        (r, final(ctx).names()) == resolve(old(ctx).names(), *expr),
        final(ctx).bool_fields == old(ctx).bool_fields,
{
    match expr {
        Expr::Ident(name) => Some(ctx.var_idx(name.as_str())),
        Expr::Select(_) => match flatten_ident(expr) {
            Some(dotted) => ctx.dotted(dotted.as_str()),
            None => None,
        },
        Expr::Call(call) => match index_parts(call) {
            Some((target, index)) => match (flatten_ident(target), string_of(index)) {
                (Some(prefix), Some(key)) => {
                    let mut dotted = prefix;
                    dotted.append(".");
                    dotted.append(key.as_str());
                    ctx.dotted(dotted.as_str())
                },
                _ => None,
            },
            None => None,
        },
        _ => None,
    }
}

/// The comparison that an operator makes.
pub fn comparison_of(op: Option<Operator>) -> (r: Option<IntCmp>)
    ensures
        r == comparison(op),
{
    match op {
        Some(Operator::Equals) => Some(IntCmp::Eq),
        Some(Operator::NotEquals) => Some(IntCmp::Ne),
        Some(Operator::Less) => Some(IntCmp::Lt),
        Some(Operator::LessEquals) => Some(IntCmp::Le),
        Some(Operator::Greater) => Some(IntCmp::Gt),
        Some(Operator::GreaterEquals) => Some(IntCmp::Ge),
        _ => None,
    }
}

fn flip(c: IntCmp) -> (r: IntCmp)
    ensures
        r == flipped(c),
{
    match c {
        IntCmp::Eq => IntCmp::Eq,
        IntCmp::Ne => IntCmp::Ne,
        IntCmp::Lt => IntCmp::Gt,
        IntCmp::Le => IntCmp::Ge,
        IntCmp::Gt => IntCmp::Lt,
        IntCmp::Ge => IntCmp::Le,
    }
}

/// The operator that compares the same two with their sides exchanged.
pub fn mirror(op: Option<Operator>) -> (r: Option<Operator>)
    ensures
        r == mirrored(op),
{
    match op {
        Some(Operator::Less) => Some(Operator::Greater),
        Some(Operator::LessEquals) => Some(Operator::GreaterEquals),
        Some(Operator::Greater) => Some(Operator::Less),
        Some(Operator::GreaterEquals) => Some(Operator::LessEquals),
        _ => op,
    }
}

fn plain_node(idx: usize, c: IntCmp, val: i64) -> (r: Box<FilterNode>)
    ensures
        node_view(*r) == plain_test(idx, c, val),
{
    Box::new(
        match c {
            IntCmp::Eq => FilterNode::EqInt { idx, val },
            IntCmp::Ne => FilterNode::NeInt { idx, val },
            IntCmp::Lt => FilterNode::LtInt { idx, val },
            IntCmp::Le => FilterNode::LeInt { idx, val },
            IntCmp::Gt => FilterNode::GtInt { idx, val },
            IntCmp::Ge => FilterNode::GeInt { idx, val },
        },
    )
}

fn arith_node(idx: usize, arith: filter_tree::Arith, operand: i64, c: IntCmp, val: i64) -> (r: Box<
    FilterNode,
>)
    requires
        arith != filter_tree::Arith::Keep,
    ensures
        node_view(*r) == Filt::Test(IntTest { idx, arith, operand, cmp: c, val }),
{
    let (a, v) = (operand, val);
    Box::new(
        match arith {
            filter_tree::Arith::Add => match c {
                IntCmp::Eq => FilterNode::AddEq { idx, arith: a, cmp: v },
                IntCmp::Ne => FilterNode::AddNe { idx, arith: a, cmp: v },
                IntCmp::Lt => FilterNode::AddLt { idx, arith: a, cmp: v },
                IntCmp::Le => FilterNode::AddLe { idx, arith: a, cmp: v },
                IntCmp::Gt => FilterNode::AddGt { idx, arith: a, cmp: v },
                IntCmp::Ge => FilterNode::AddGe { idx, arith: a, cmp: v },
            },
            filter_tree::Arith::Sub => match c {
                IntCmp::Eq => FilterNode::SubEq { idx, arith: a, cmp: v },
                IntCmp::Ne => FilterNode::SubNe { idx, arith: a, cmp: v },
                IntCmp::Lt => FilterNode::SubLt { idx, arith: a, cmp: v },
                IntCmp::Le => FilterNode::SubLe { idx, arith: a, cmp: v },
                IntCmp::Gt => FilterNode::SubGt { idx, arith: a, cmp: v },
                IntCmp::Ge => FilterNode::SubGe { idx, arith: a, cmp: v },
            },
            _ => match c {
                IntCmp::Eq => FilterNode::MulEq { idx, arith: a, cmp: v },
                IntCmp::Ne => FilterNode::MulNe { idx, arith: a, cmp: v },
                IntCmp::Lt => FilterNode::MulLt { idx, arith: a, cmp: v },
                IntCmp::Le => FilterNode::MulLe { idx, arith: a, cmp: v },
                IntCmp::Gt => FilterNode::MulGt { idx, arith: a, cmp: v },
                IntCmp::Ge => FilterNode::MulGe { idx, arith: a, cmp: v },
            },
        },
    )
}

fn try_var_lit(ctx: &mut FilterCtx, var_expr: &Expr, lit_expr: &Expr) -> (r: Option<(usize, i64)>)
    ensures
        (r, final(ctx).names()) == var_and_int(old(ctx).names(), *var_expr, *lit_expr),
        final(ctx).bool_fields == old(ctx).bool_fields,
{
    match (resolve_var(ctx, var_expr), int_of(lit_expr)) {
        (Some(idx), Some(val)) => Some((idx, val)),
        _ => None,
    }
}

fn touch(ctx: &mut FilterCtx, e: &Expr) -> (r: Option<usize>)
    ensures
        r == ident_idx(old(ctx).names(), *e),
        final(ctx).names() == touched(old(ctx).names(), *e),
        final(ctx).bool_fields == old(ctx).bool_fields,
{
    match e {
        Expr::Ident(name) => Some(ctx.var_idx(name.as_str())),
        _ => None,
    }
}

fn arithmetic_of(op: Option<Operator>) -> (r: Option<filter_tree::Arith>)
    ensures
        r == arithmetic(op),
{
    match op {
        Some(Operator::Add) => Some(filter_tree::Arith::Add),
        Some(Operator::Substract) => Some(filter_tree::Arith::Sub),
        Some(Operator::Multiply) => Some(filter_tree::Arith::Mul),
        _ => None,
    }
}

/// Compiles `var + literal`, `var - literal`, `var * literal` or `literal + var` compared
/// with a literal.
fn try_arith_lit(ctx: &mut FilterCtx, expr: &Expr, op: Option<Operator>, lit_expr: &Expr) -> (r:
    Option<Box<FilterNode>>)
    ensures
        (opt_node(r), final(ctx).names()) == arith_test(old(ctx).names(), *expr, op, *lit_expr),
        final(ctx).bool_fields == old(ctx).bool_fields,
{
    proof {
        reveal(arith_test);
    }
    let val = match int_of(lit_expr) {
        Some(v) => v,
        None => {
            return None;
        },
    };
    let call = match expr {
        Expr::Call(c) => c,
        _ => {
            return None;
        },
    };
    if call.args.len() != 2 {
        return None;
    }
    let a = &call.args[0].expr;
    let b = &call.args[1].expr;
    let arith = arithmetic_of(ast::operator_named(call.func_name.as_str()));
    let c = comparison_of(op);
    let first = touch(ctx, a);
    match (first, int_of(b)) {
        (Some(idx), Some(operand)) => {
            return match (arith, c) {
                (Some(x), Some(y)) => Some(arith_node(idx, x, operand, y, val)),
                _ => None,
            };
        },
        _ => {},
    }
    let second = touch(ctx, b);
    match (int_of(a), second) {
        (Some(operand), Some(idx)) => match (arith, c) {
            (Some(filter_tree::Arith::Add), Some(y)) => Some(
                arith_node(idx, filter_tree::Arith::Add, operand, y, val),
            ),
            _ => None,
        },
        _ => None,
    }
}

fn resolve_args(ctx: &mut FilterCtx, args: &Vec<IdedExpr>) -> (r: Option<Vec<usize>>)
    ensures
        (match r {
            Some(v) => Some(v@),
            None => None,
        }, final(ctx).names()) == resolve_all(old(ctx).names(), args@),
        final(ctx).bool_fields == old(ctx).bool_fields,
{
    let ghost names = ctx.names();
    let mut out: Vec<usize> = Vec::new();
    let mut i: usize = 0;
    assert(out@ =~= Seq::<usize>::empty());
    while i < args.len()
        invariant
            i <= args@.len(),
            ctx.bool_fields == old(ctx).bool_fields,
            names == old(ctx).names(),
            resolve_all(names, args@.subrange(0, i as int)) == (Some(out@), ctx.names()),
        decreases args@.len() - i,
    {
        let ghost next = args@.subrange(0, i + 1);
        assert(next.drop_last() =~= args@.subrange(0, i as int));
        assert(next.last() == args@[i as int]);
        match resolve_var(ctx, &args[i].expr) {
            Some(idx) => {
                out.push(idx);
            },
            None => {
                proof {
                    lemma_resolve_stops(names, args@, i + 1);
                }
                return None;
            },
        }
        i += 1;
    }
    assert(args@.subrange(0, i as int) =~= args@);
    Some(out)
}

proof fn lemma_resolve_stops(names: Seq<Seq<char>>, args: Seq<IdedExpr>, n: int)
    requires
        0 <= n <= args.len(),
        resolve_all(names, args.subrange(0, n)).0 is None,
    ensures
        resolve_all(names, args) == resolve_all(names, args.subrange(0, n)),
    decreases args.len() - n,
{
    if n < args.len() {
        assert(args.subrange(0, n + 1).drop_last() =~= args.subrange(0, n));
        lemma_resolve_stops(names, args, n + 1);
    } else {
        assert(args.subrange(0, n) =~= args);
    }
}

/// Compiles a call of a registered function compared with a literal.
fn try_compile_fn_call_int_cmp(
    ctx: &mut FilterCtx,
    op: Option<Operator>,
    left: &Expr,
    right: &Expr,
    functions: Option<&FnTable>,
) -> (r: Option<Box<FilterNode>>)
    ensures
        (opt_node(r), final(ctx).names()) == call_test(
            old(ctx).names(),
            op,
            *left,
            *right,
            known_in(*old(ctx), functions).functions,
        ),
        final(ctx).bool_fields == old(ctx).bool_fields,
{
    proof {
        reveal(call_test);
    }
    let table = match functions {
        Some(t) => t,
        None => {
            return None;
        },
    };
    let literal = match int_of(right) {
        Some(v) => v,
        None => {
            return None;
        },
    };
    let call = match left {
        Expr::Call(c) => c,
        _ => {
            return None;
        },
    };
    if call.args.len() < 1 || call.target.is_some() {
        return None;
    }
    let func = match table.get(call.func_name.as_str()) {
        Some(f) => f,
        None => {
            return None;
        },
    };
    let arg_idxs = match resolve_args(ctx, &call.args) {
        Some(v) => v,
        None => {
            return None;
        },
    };
    let c = match comparison_of(op) {
        Some(c) => c,
        None => {
            return None;
        },
    };
    if arg_idxs.len() > 3 {
        return None;
    }
    Some(
        Box::new(FilterNode::FnCmpResult { func: func.duplicate(), arg_idxs, cmp: c, literal }),
    )
}

/// Compiles a string made of literals.
fn try_compile_str_expr(expr: &Expr) -> (r: Option<StrExpr>)
    ensures
        r == str_expr(*expr),
    decreases expr,
{
    match expr {
        Expr::Literal(LiteralValue::String(s)) => Some(StrExpr::Literal(s.clone())),
        Expr::Call(call) => {
            if call.args.len() == 2 && ast::operator_named(call.func_name.as_str()) == Some(
                Operator::Add,
            ) {
                match (
                    try_compile_str_expr(&call.args[0].expr),
                    try_compile_str_expr(&call.args[1].expr),
                ) {
                    (Some(a), Some(b)) => Some(StrExpr::Concat(Box::new(a), Box::new(b))),
                    _ => None,
                }
            } else {
                None
            }
        },
        _ => None,
    }
}

/// Whether a string made of literals has as many bytes as characters in each.
fn is_byte_wide(e: &StrExpr) -> (r: bool)
    ensures
        r == byte_wide(*e),
    decreases e,
{
    match e {
        StrExpr::Literal(s) => {
            let s = s.as_str();
            strings::str_byte_len(s) == s.unicode_len()
        },
        StrExpr::Var(_) => false,
        StrExpr::Concat(a, b) => is_byte_wide(a) && is_byte_wide(b),
    }
}

/// Compiles an integer expression over variables and literals.
fn try_compile_i64_expr(ctx: &mut FilterCtx, expr: &Expr) -> (r: Option<I64Expr>)
    ensures
        (r, final(ctx).names()) == int_expr(old(ctx).names(), *expr),
        final(ctx).bool_fields == old(ctx).bool_fields,
    decreases expr,
{
    match expr {
        Expr::Literal(LiteralValue::Int(i)) => Some(I64Expr::Literal(*i)),
        Expr::Ident(name) => Some(I64Expr::Var(ctx.var_idx(name.as_str()))),
        Expr::Call(call) => {
            let op = ast::operator_named(call.func_name.as_str());
            if call.args.len() == 2 {
                let a = match try_compile_i64_expr(ctx, &call.args[0].expr) {
                    Some(a) => a,
                    None => {
                        return None;
                    },
                };
                let b = match try_compile_i64_expr(ctx, &call.args[1].expr) {
                    Some(b) => b,
                    None => {
                        return None;
                    },
                };
                match op {
                    Some(Operator::Add) => Some(I64Expr::Add(Box::new(a), Box::new(b))),
                    Some(Operator::Substract) => Some(I64Expr::Sub(Box::new(a), Box::new(b))),
                    Some(Operator::Multiply) => Some(I64Expr::Mul(Box::new(a), Box::new(b))),
                    Some(Operator::Divide) => Some(I64Expr::Div(Box::new(a), Box::new(b))),
                    Some(Operator::Modulo) => Some(I64Expr::Mod(Box::new(a), Box::new(b))),
                    _ => None,
                }
            } else if call.args.len() == 1 {
                if op == Some(Operator::Negate) {
                    match try_compile_i64_expr(ctx, &call.args[0].expr) {
                        Some(a) => Some(I64Expr::Neg(Box::new(a))),
                        None => None,
                    }
                } else if strings::str_eq(call.func_name.as_str(), "size") {
                    match try_compile_str_expr(&call.args[0].expr) {
                        Some(s) => if is_byte_wide(&s) {
                            Some(I64Expr::StrLen(Box::new(s)))
                        } else {
                            None
                        },
                        None => None,
                    }
                } else {
                    None
                }
            } else {
                None
            }
        },
        _ => None,
    }
}

fn compare_node(c: IntCmp, left: I64Expr, right: I64Expr) -> (r: Box<FilterNode>)
    ensures
        node_view(*r) == Filt::Compare(c, left, right),
{
    Box::new(
        match c {
            IntCmp::Eq => FilterNode::EqExpr { left, right },
            IntCmp::Ne => FilterNode::NeExpr { left, right },
            IntCmp::Lt => FilterNode::LtExpr { left, right },
            IntCmp::Le => FilterNode::LeExpr { left, right },
            IntCmp::Gt => FilterNode::GtExpr { left, right },
            IntCmp::Ge => FilterNode::GeExpr { left, right },
        },
    )
}

fn try_compile_general(ctx: &mut FilterCtx, op: Option<Operator>, left: &Expr, right: &Expr) -> (r:
    Option<Box<FilterNode>>)
    ensures
        (opt_node(r), final(ctx).names()) == general_test(old(ctx).names(), op, *left, *right),
        final(ctx).bool_fields == old(ctx).bool_fields,
{
    proof {
        reveal(general_test);
    }
    match (left, right) {
        (Expr::Ident(_), Expr::Ident(_)) => {
            return None;
        },
        _ => {},
    }
    let a = match try_compile_i64_expr(ctx, left) {
        Some(a) => a,
        None => {
            return None;
        },
    };
    let b = match try_compile_i64_expr(ctx, right) {
        Some(b) => b,
        None => {
            return None;
        },
    };
    match comparison_of(op) {
        Some(c) => Some(compare_node(c, a, b)),
        None => None,
    }
}

/// Compiles a comparison of integers.
pub fn try_compile_int_cmp(
    ctx: &mut FilterCtx,
    op: Option<Operator>,
    left: &Expr,
    right: &Expr,
    functions: Option<&FnTable>,
) -> (r: Option<Box<FilterNode>>)
    ensures
        (opt_node(r), final(ctx).names()) == int_test(
            old(ctx).names(),
            op,
            *left,
            *right,
            known_in(*old(ctx), functions).functions,
        ),
        final(ctx).bool_fields == old(ctx).bool_fields,
{
    proof {
        reveal(int_test);
    }
    match try_var_lit(ctx, left, right) {
        Some((idx, val)) => {
            return match comparison_of(op) {
                Some(c) => Some(plain_node(idx, c, val)),
                None => None,
            };
        },
        None => {},
    }
    match try_var_lit(ctx, right, left) {
        Some((idx, val)) => {
            return match comparison_of(op) {
                Some(c) => Some(plain_node(idx, flip(c), val)),
                None => None,
            };
        },
        None => {},
    }
    match try_arith_lit(ctx, left, op, right) {
        Some(f) => {
            return Some(f);
        },
        None => {},
    }
    match try_arith_lit(ctx, right, mirror(op), left) {
        Some(f) => {
            return Some(f);
        },
        None => {},
    }
    match try_compile_fn_call_int_cmp(ctx, op, left, right, functions) {
        Some(f) => {
            return Some(f);
        },
        None => {},
    }
    match try_compile_fn_call_int_cmp(ctx, mirror(op), right, left, functions) {
        Some(f) => {
            return Some(f);
        },
        None => {},
    }
    try_compile_general(ctx, op, left, right)
}

fn equality_node(idx: usize, op: Option<Operator>, s: Option<&String>) -> (r: Option<
    Box<FilterNode>,
>)
    ensures
        opt_node(r) == text_equality(
            idx,
            op,
            match s {
                Some(t) => Some(t@),
                None => None,
            },
        ),
{
    match s {
        Some(t) => if op == Some(Operator::Equals) {
            Some(Box::new(FilterNode::EqStr { idx, val: t.clone() }))
        } else {
            Some(Box::new(FilterNode::NeStr { idx, val: t.clone() }))
        },
        None => None,
    }
}

/// Compiles an equality of strings.
pub fn try_compile_str_cmp(ctx: &mut FilterCtx, op: Option<Operator>, left: &Expr, right: &Expr) -> (r:
    Option<Box<FilterNode>>)
    ensures
        (opt_node(r), final(ctx).names()) == str_test(old(ctx).names(), op, *left, *right),
        final(ctx).bool_fields == old(ctx).bool_fields,
{
    proof {
        reveal(str_test);
    }
    if op != Some(Operator::Equals) && op != Some(Operator::NotEquals) {
        return None;
    }
    match resolve_var(ctx, left) {
        Some(idx) => equality_node(idx, op, string_of(right)),
        None => match resolve_var(ctx, right) {
            Some(idx) => equality_node(idx, op, string_of(left)),
            None => None,
        },
    }
}

fn text_node(func: &str, idx: usize, s: &String) -> (r: Option<Box<FilterNode>>)
    ensures
        opt_node(r) == text_function(func@, idx, s@),
{
    if strings::str_eq(func, "startsWith") {
        Some(Box::new(FilterNode::StartsWith { idx, prefix: s.clone() }))
    } else if strings::str_eq(func, "endsWith") {
        Some(Box::new(FilterNode::EndsWith { idx, suffix: s.clone() }))
    } else if strings::str_eq(func, "contains") {
        Some(Box::new(FilterNode::Contains { idx, substring: s.clone() }))
    } else if strings::str_eq(func, "matches") {
        match CompiledRegex::new(s.as_str()) {
            Some(re) => Some(Box::new(FilterNode::Matches { idx, regex: Arc::new(re) })),
            None => None,
        }
    } else {
        None
    }
}

/// Compiles `func(receiver, "literal")`.
pub fn try_compile_str_bool(ctx: &mut FilterCtx, func: &str, receiver: &Expr, arg: &Expr) -> (r:
    Option<Box<FilterNode>>)
    ensures
        (opt_node(r), final(ctx).names()) == str_call(old(ctx).names(), func@, *receiver, *arg),
        final(ctx).bool_fields == old(ctx).bool_fields,
{
    proof {
        reveal(str_call);
    }
    match (resolve_var(ctx, receiver), string_of(arg)) {
        (Some(idx), Some(s)) => text_node(func, idx, s),
        _ => None,
    }
}

/// Compiles `target.func("literal")`.
pub fn try_compile_target_str_bool(ctx: &mut FilterCtx, call: &CallExpr) -> (r: Option<
    Box<FilterNode>,
>)
    ensures
        (opt_node(r), final(ctx).names()) == str_member(old(ctx).names(), *call),
        final(ctx).bool_fields == old(ctx).bool_fields,
{
    proof {
        reveal(str_member);
    }
    let func = call.func_name.as_str();
    if !strings::str_eq(func, "startsWith") && !strings::str_eq(func, "endsWith")
        && !strings::str_eq(func, "contains") && !strings::str_eq(func, "matches") {
        return None;
    }
    match &call.target {
        None => None,
        Some(target) => match resolve_var(ctx, &target.expr) {
            None => None,
            Some(idx) => {
                if call.args.len() == 0 {
                    return None;
                }
                match string_of(&call.args[0].expr) {
                    Some(s) => text_node(func, idx, s),
                    None => None,
                }
            },
        },
    }
}

proof fn lemma_not_all_ints(s: Seq<IdedExpr>, n: int)
    requires
        0 <= n <= s.len(),
        all_ints(s.subrange(0, n)) is None,
    ensures
        all_ints(s) is None,
    decreases s.len() - n,
{
    if n < s.len() {
        assert(s.subrange(0, n + 1).drop_last() =~= s.subrange(0, n));
        lemma_not_all_ints(s, n + 1);
    } else {
        assert(s.subrange(0, n) =~= s);
    }
}

proof fn lemma_not_all_strings(s: Seq<IdedExpr>, n: int)
    requires
        0 <= n <= s.len(),
        all_strings(s.subrange(0, n)) is None,
    ensures
        all_strings(s) is None,
    decreases s.len() - n,
{
    if n < s.len() {
        assert(s.subrange(0, n + 1).drop_last() =~= s.subrange(0, n));
        lemma_not_all_strings(s, n + 1);
    } else {
        assert(s.subrange(0, n) =~= s);
    }
}

fn collect_ints(s: &Vec<IdedExpr>) -> (r: Option<Vec<i64>>)
    ensures
        match r {
            Some(v) => all_ints(s@) == Some(v@),
            None => all_ints(s@) is None,
        },
{
    let mut out: Vec<i64> = Vec::new();
    let mut i: usize = 0;
    assert(out@ =~= Seq::<i64>::empty());
    while i < s.len()
        invariant
            i <= s@.len(),
            all_ints(s@.subrange(0, i as int)) == Some(out@),
        decreases s@.len() - i,
    {
        let ghost next = s@.subrange(0, i + 1);
        assert(next.drop_last() =~= s@.subrange(0, i as int));
        assert(next.last() == s@[i as int]);
        match int_of(&s[i].expr) {
            Some(v) => {
                out.push(v);
            },
            None => {
                proof {
                    lemma_not_all_ints(s@, i + 1);
                }
                return None;
            },
        }
        i += 1;
    }
    assert(s@.subrange(0, i as int) =~= s@);
    Some(out)
}

fn collect_strings(s: &Vec<IdedExpr>) -> (r: Option<Vec<String>>)
    ensures
        match r {
            Some(v) => all_strings(s@) == Some(objects::texts(v@)),
            None => all_strings(s@) is None,
        },
{
    let mut out: Vec<String> = Vec::new();
    let mut i: usize = 0;
    assert(objects::texts(out@) =~= Seq::<Seq<char>>::empty());
    while i < s.len()
        invariant
            i <= s@.len(),
            all_strings(s@.subrange(0, i as int)) == Some(objects::texts(out@)),
        decreases s@.len() - i,
    {
        let ghost next = s@.subrange(0, i + 1);
        let ghost before = objects::texts(out@);
        assert(next.drop_last() =~= s@.subrange(0, i as int));
        assert(next.last() == s@[i as int]);
        match string_of(&s[i].expr) {
            Some(v) => {
                out.push(v.clone());
                assert(objects::texts(out@) =~= before.push(v@));
            },
            None => {
                proof {
                    lemma_not_all_strings(s@, i + 1);
                }
                return None;
            },
        }
        i += 1;
    }
    assert(s@.subrange(0, i as int) =~= s@);
    Some(out)
}

/// The set of the integers of a list.
fn int_set(v: &Vec<i64>) -> (r: HashSet<i64>)
    ensures
        r@ == v@.to_set(),
{
    broadcast use vstd::std_specs::hash::group_hash_axioms;

    let mut set: HashSet<i64> = HashSet::new();
    let mut i: usize = 0;
    assert(set@ =~= v@.subrange(0, 0).to_set());
    while i < v.len()
        invariant
            i <= v@.len(),
            set@ == v@.subrange(0, i as int).to_set(),
            vstd::std_specs::hash::obeys_key_model::<i64>(),
            vstd::std_specs::hash::builds_valid_hashers::<std::hash::RandomState>(),
        decreases v@.len() - i,
    {
        let ghost pre = v@.subrange(0, i as int);
        let ghost next = v@.subrange(0, i + 1);
        let x = v[i];
        set.insert(x);
        proof {
            assert(next =~= pre.push(x));
            assert forall|y: i64| set@.contains(y) <==> next.to_set().contains(y) by {
                if pre.contains(y) {
                    let j = choose|j: int| 0 <= j < pre.len() && pre[j] == y;
                    assert(next[j] == y);
                }
                if next.contains(y) && y != x {
                    let j = choose|j: int| 0 <= j < next.len() && next[j] == y;
                    assert(pre[j] == y);
                }
                assert(next[i as int] == x);
            }
            assert(set@ =~= next.to_set());
        }
        i += 1;
    }
    assert(v@.subrange(0, i as int) =~= v@);
    set
}

/// The strings of a list without those that came before.
fn text_set(v: &Vec<String>) -> (r: Vec<String>)
    ensures
        objects::texts(r@).to_set() == objects::texts(v@).to_set(),
        objects::texts(r@).no_duplicates(),
{
    let ghost all = objects::texts(v@);
    let mut out: Vec<String> = Vec::new();
    let mut i: usize = 0;
    assert(objects::texts(out@).to_set() =~= all.subrange(0, 0).to_set());
    while i < v.len()
        invariant
            i <= v@.len(),
            all == objects::texts(v@),
            objects::texts(out@).to_set() == all.subrange(0, i as int).to_set(),
            objects::texts(out@).no_duplicates(),
        decreases v@.len() - i,
    {
        let ghost pre = all.subrange(0, i as int);
        let ghost next = all.subrange(0, i + 1);
        let ghost before = objects::texts(out@);
        let x = &v[i];
        assert(next =~= pre.push(x@));
        let seen = filter_tree::text_among(&out, x.as_str());
        if !seen {
            out.push(x.clone());
            assert(objects::texts(out@) =~= before.push(x@));
        }
        proof {
            let after = objects::texts(out@);
            assert forall|y: Seq<char>| after.to_set().contains(y) <==> next.to_set().contains(
                y,
            ) by {
                assert(before.to_set().contains(y) <==> pre.to_set().contains(y));
                if before.contains(y) {
                    let j = choose|j: int| 0 <= j < before.len() && before[j] == y;
                    assert(after[j] == y);
                }
                if after.contains(y) && y != x@ {
                    let j = choose|j: int| 0 <= j < after.len() && after[j] == y;
                    assert(before[j] == y);
                }
                if pre.contains(y) {
                    let j = choose|j: int| 0 <= j < pre.len() && pre[j] == y;
                    assert(next[j] == y);
                }
                if next.contains(y) && y != x@ {
                    let j = choose|j: int| 0 <= j < next.len() && next[j] == y;
                    assert(pre[j] == y);
                }
                assert(next[i as int] == x@);
                if !seen {
                    assert(after[before.len() as int] == x@);
                }
            }
            assert(after.to_set() =~= next.to_set());
        }
        i += 1;
    }
    assert(all.subrange(0, i as int) =~= all);
    out
}

/// Compiles `var in [literals]`.
pub fn try_compile_in_set(ctx: &mut FilterCtx, left: &Expr, right: &Expr) -> (r: Option<
    Box<FilterNode>,
>)
    ensures
        (opt_node(r), final(ctx).names()) == member_test(old(ctx).names(), *left, *right),
        final(ctx).bool_fields == old(ctx).bool_fields,
{
    proof {
        reveal(member_test);
    }
    let idx = match resolve_var(ctx, left) {
        Some(i) => i,
        None => {
            return None;
        },
    };
    let list = match right {
        Expr::List(l) => &l.elements,
        _ => {
            return None;
        },
    };
    match collect_ints(list) {
        Some(ints) => {
            if ints.len() <= 16 {
                return Some(Box::new(FilterNode::InIntLinear { idx, vals: ints }));
            }
            return Some(
                Box::new(FilterNode::InIntHash { idx, set: Arc::new(int_set(&ints)) }),
            );
        },
        None => {},
    }
    match collect_strings(list) {
        Some(strs) => {
            if strs.len() <= 16 {
                return Some(Box::new(FilterNode::InStrLinear { idx, vals: strs }));
            }
            Some(Box::new(FilterNode::InStrHash { idx, set: text_set(&strs) }))
        },
        None => None,
    }
}

/// The terms that were collected stand for these pairs.
pub open spec fn terms_view(s: Seq<(String, String)>) -> Seq<(Seq<char>, Seq<char>)> {
    s.map_values(|t: (String, String)| (t.0@, t.1@))
}

/// `var.contains("literal")`: the variable and the literal.
pub fn extract_contains(expr: &Expr) -> (r: Option<(String, String)>)
    ensures
        match r {
            Some(t) => contains_term(*expr) == Some((t.0@, t.1@)),
            None => contains_term(*expr) is None,
        },
{
    let call = match expr {
        Expr::Call(call) => call,
        _ => {
            return None;
        },
    };
    if !strings::str_eq(call.func_name.as_str(), "contains") || call.args.len() == 0 {
        return None;
    }
    match &call.target {
        Some(t) => match &t.expr {
            Expr::Ident(name) => match string_of(&call.args[0].expr) {
                Some(s) => Some((name.clone(), s.clone())),
                None => None,
            },
            _ => None,
        },
        None => None,
    }
}

/// Collects the `contains` terms of a tree of one operator; false where another leaf is
/// found.
fn collect_contains(op: Operator, expr: &Expr, out: &mut Vec<(String, String)>) -> (r: bool)
    ensures
        r == (contains_terms(op, *expr) is Some),
        contains_terms(op, *expr) matches Some(t) ==> terms_view(final(out)@) == terms_view(
            old(out)@,
        ) + t,
    decreases expr,
{
    match expr {
        Expr::Call(call) => {
            if ast::operator_named(call.func_name.as_str()) == Some(op) && call.args.len() == 2 {
                let ghost start = terms_view(out@);
                if !collect_contains(op, &call.args[0].expr, out) {
                    return false;
                }
                if !collect_contains(op, &call.args[1].expr, out) {
                    return false;
                }
                assert(terms_view(out@) =~= start + contains_terms(op, *expr)->0);
                true
            } else {
                let ghost start = terms_view(out@);
                match extract_contains(expr) {
                    Some(t) => {
                        out.push(t);
                        assert(terms_view(out@) =~= start + seq![(t.0@, t.1@)]);
                        true
                    },
                    None => false,
                }
            }
        },
        _ => false,
    }
}

/// The literals of terms that are all about one variable.
fn words_of(terms: &Vec<(String, String)>) -> (r: Option<Vec<String>>)
    requires
        terms@.len() > 0,
    ensures
        match r {
            Some(w) => one_variable(terms_view(terms@)) && objects::texts(w@) == term_words(
                terms_view(terms@),
            ),
            None => !one_variable(terms_view(terms@)),
        },
{
    let ghost ts = terms_view(terms@);
    let mut out: Vec<String> = Vec::new();
    let mut i: usize = 0;
    while i < terms.len()
        invariant
            terms@.len() > 0,
            i <= terms@.len(),
            ts == terms_view(terms@),
            out@.len() == i,
            forall|j: int| 0 <= j < i ==> (#[trigger] ts[j]).0 == ts[0].0,
            forall|j: int| 0 <= j < i ==> (#[trigger] out@[j])@ == ts[j].1,
        decreases terms@.len() - i,
    {
        assert(ts[i as int] == (terms@[i as int].0@, terms@[i as int].1@));
        assert(ts[0] == (terms@[0].0@, terms@[0].1@));
        if !strings::str_eq(terms[i].0.as_str(), terms[0].0.as_str()) {
            assert(ts[i as int].0 != ts[0].0);
            return None;
        }
        out.push(terms[i].1.clone());
        i += 1;
    }
    assert(objects::texts(out@) =~= term_words(ts));
    Some(out)
}

/// Compiles a disjunction or a conjunction of `contains` on one variable into one scan.
fn try_compile_merged(ctx: &mut FilterCtx, any: bool, expr: &Expr) -> (r: Option<Box<FilterNode>>)
    ensures
        (opt_node(r), final(ctx).names()) == merged_contains(old(ctx).names(), any, *expr),
        final(ctx).bool_fields == old(ctx).bool_fields,
{
    proof {
        reveal(merged_contains);
    }
    let mut terms: Vec<(String, String)> = Vec::new();
    let op = if any {
        Operator::LogicalOr
    } else {
        Operator::LogicalAnd
    };
    let ghost start = terms_view(terms@);
    if !collect_contains(op, expr, &mut terms) {
        return None;
    }
    assert(terms_view(terms@) =~= contains_terms(op, *expr)->0);
    if terms.len() < 2 {
        return None;
    }
    let words = match words_of(&terms) {
        Some(w) => w,
        None => {
            return None;
        },
    };
    assert(terms_view(terms@)[0].0 == terms@[0].0@);
    assert(objects::texts(words@).len() == words@.len());
    let idx = ctx.var_idx(terms[0].0.as_str());
    let n = words.len();
    if any && n <= 4 {
        return Some(Box::new(FilterNode::ContainsAny { idx, needles: words }));
    }
    let min: usize = if any {
        1
    } else {
        n
    };
    match WordSet::new(words) {
        Some(ac) => Some(Box::new(FilterNode::AhoContains { idx, ac: Arc::new(ac), min })),
        None => None,
    }
}

/// Compiles a disjunction of `contains` on one variable into one scan.
pub fn try_compile_ac_or(ctx: &mut FilterCtx, expr: &Expr) -> (r: Option<Box<FilterNode>>)
    ensures
        (opt_node(r), final(ctx).names()) == merged_contains(old(ctx).names(), true, *expr),
        final(ctx).bool_fields == old(ctx).bool_fields,
{
    try_compile_merged(ctx, true, expr)
}

/// Compiles a conjunction of `contains` on one variable into one scan.
pub fn try_compile_ac_and(ctx: &mut FilterCtx, expr: &Expr) -> (r: Option<Box<FilterNode>>)
    ensures
        (opt_node(r), final(ctx).names()) == merged_contains(old(ctx).names(), false, *expr),
        final(ctx).bool_fields == old(ctx).bool_fields,
{
    try_compile_merged(ctx, false, expr)
}

/// What a loop of a filter runs over.
pub enum IterSource {
    Var(usize),
    MapIndex(usize, String),
}

impl View for IterSource {
    type V = SourceModel;

    open spec fn view(&self) -> SourceModel {
        match *self {
            IterSource::Var(i) => SourceModel::Var(i),
            IterSource::MapIndex(i, k) => SourceModel::Key(i, k@),
        }
    }
}

/// `map["key"]`: the variable and the key.
pub fn try_extract_map_index(ctx: &mut FilterCtx, expr: &Expr) -> (r: Option<(usize, String)>)
    ensures
        (match r {
            Some(p) => Some((p.0, p.1@)),
            None => None,
        }, final(ctx).names()) == map_key(old(ctx).names(), *expr),
        final(ctx).bool_fields == old(ctx).bool_fields,
{
    match expr {
        Expr::Call(call) => match index_parts(call) {
            Some((target, index)) => match (resolve_var(ctx, target), string_of(index)) {
                (Some(idx), Some(key)) => Some((idx, key.clone())),
                _ => None,
            },
            None => None,
        },
        _ => None,
    }
}

fn iter_source(ctx: &mut FilterCtx, expr: &Expr) -> (r: Option<IterSource>)
    ensures
        (match r {
            Some(s) => Some(s@),
            None => None,
        }, final(ctx).names()) == loop_source(old(ctx).names(), *expr),
        final(ctx).bool_fields == old(ctx).bool_fields,
{
    match try_extract_map_index(ctx, expr) {
        Some((idx, key)) => Some(IterSource::MapIndex(idx, key)),
        None => match resolve_var(ctx, expr) {
            Some(idx) => Some(IterSource::Var(idx)),
            None => None,
        },
    }
}

fn ident_is(e: &Expr, name: &String) -> (r: bool)
    ensures
        r == is_ident(*e, name@),
{
    match e {
        Expr::Ident(n) => strings::str_eq(n.as_str(), name.as_str()),
        _ => false,
    }
}

fn not_ident_is(e: &Expr, name: &String) -> (r: bool)
    ensures
        r == is_not_ident(*e, name@),
{
    match e {
        Expr::Call(call) => ast::operator_named(call.func_name.as_str()) == Some(
            Operator::LogicalNot,
        ) && call.args.len() == 1 && ident_is(&call.args[0].expr, name),
        _ => false,
    }
}

fn loop_goes_on(e: &Expr, accu: &String) -> (r: bool)
    ensures
        r == goes_on(*e, accu@),
{
    if not_ident_is(e, accu) {
        return true;
    }
    match e {
        Expr::Call(call) => ast::operator_named(call.func_name.as_str()) == Some(
            Operator::NotStrictlyFalse,
        ) && call.args.len() == 1 && not_ident_is(&call.args[0].expr, accu),
        _ => false,
    }
}

/// The condition of an `exists` loop, which the step joins to the accumulator.
fn condition_of(comp: &ComprehensionExpr) -> (r: Option<&Expr>)
    ensures
        match r {
            Some(e) => exists_condition(*comp) matches Some(k) && *e
                == comp.loop_step.expr->Call_0.args@[k].expr,
            None => exists_condition(*comp) is None,
        },
{
    let start = match &comp.accu_init.expr {
        Expr::Literal(LiteralValue::Boolean(b)) => *b,
        _ => {
            return None;
        },
    };
    let step = match &comp.loop_step.expr {
        Expr::Call(c) => c,
        _ => {
            return None;
        },
    };
    if start || ast::operator_named(step.func_name.as_str()) != Some(Operator::LogicalOr)
        || step.args.len() != 2 || !loop_goes_on(&comp.loop_cond.expr, &comp.accu_var) || !ident_is(
        &comp.result.expr,
        &comp.accu_var,
    ) {
        return None;
    }
    if ident_is(&step.args[0].expr, &comp.accu_var) {
        Some(&step.args[1].expr)
    } else if ident_is(&step.args[1].expr, &comp.accu_var) {
        Some(&step.args[0].expr)
    } else {
        None
    }
}

/// The position, in a condition on two, of the variable of the loop.
fn variable_position(comp: &ComprehensionExpr, cond: &CallExpr) -> (r: Option<usize>)
    ensures
        match r {
            Some(k) => loop_variable(*comp, *cond) == Some(k) && k < 2 && cond.args@.len()
                == 2,
            None => loop_variable(*comp, *cond) is None,
        },
{
    let name = match &comp.iter_var2 {
        Some(v) => v,
        None => &comp.iter_var,
    };
    if cond.args.len() != 2 || strings::str_eq(name.as_str(), comp.accu_var.as_str()) {
        return None;
    }
    if ident_is(&cond.args[0].expr, name) {
        Some(0)
    } else if ident_is(&cond.args[1].expr, name) {
        Some(1)
    } else {
        None
    }
}

fn compile_exists_node(
    source: IterSource,
    is_map: bool,
    op: Option<Operator>,
    cond: &CallExpr,
    at: usize,
) -> (r: Option<Box<FilterNode>>)
    requires
        cond.args@.len() == 2,
        at < 2,
    ensures
        opt_node(r) == exists_node(source@, is_map, op, *cond, at),
{
    if op == Some(Operator::In) {
        return match (&cond.args[1].expr, source, is_map) {
            (Expr::List(list), IterSource::Var(idx), false) => match collect_ints(&list.elements) {
                Some(vals) => Some(
                    Box::new(FilterNode::ExistsIntSet { collection_idx: idx, vals }),
                ),
                None => None,
            },
            _ => None,
        };
    }
    let literal = &cond.args[1 - at].expr;
    let turned = if at == 1 {
        mirror(op)
    } else {
        op
    };
    match int_of(literal) {
        Some(v) => match comparison_of(turned) {
            Some(c) => match source {
                IterSource::MapIndex(map_idx, key) => if is_map {
                    None
                } else {
                    Some(
                        Box::new(
                            FilterNode::MapIndexIntList { map_idx, key, cmp_val: v, cmp: c },
                        ),
                    )
                },
                IterSource::Var(idx) => if is_map {
                    Some(
                        Box::new(
                            FilterNode::ExistsMapInt { collection_idx: idx, cmp_val: v, cmp: c },
                        ),
                    )
                } else {
                    Some(
                        Box::new(
                            FilterNode::ExistsIntList { collection_idx: idx, cmp_val: v, cmp: c },
                        ),
                    )
                },
            },
            None => None,
        },
        None => match string_of(literal) {
            Some(s) => if op == Some(Operator::Equals) && !is_map {
                match source {
                    IterSource::MapIndex(map_idx, key) => Some(
                        Box::new(
                            FilterNode::MapIndexStrEq { map_idx, key, cmp_val: s.clone() },
                        ),
                    ),
                    IterSource::Var(idx) => Some(
                        Box::new(
                            FilterNode::ExistsStrEq { collection_idx: idx, cmp_val: s.clone() },
                        ),
                    ),
                }
            } else {
                None
            },
            None => None,
        },
    }
}

/// Compiles an `exists` loop: `list.exists(x, x op literal)`, over a variable or over
/// `map["key"]`.
///
/// The macro expands to a loop whose accumulator starts as false, that goes on while it is
/// false, whose step is `accu || condition`, and that gives the accumulator.
pub fn try_compile_exists(ctx: &mut FilterCtx, comp: &ComprehensionExpr) -> (r: Option<
    Box<FilterNode>,
>)
    ensures
        (opt_node(r), final(ctx).names()) == exists_test(old(ctx).names(), *comp),
        final(ctx).bool_fields == old(ctx).bool_fields,
{
    proof {
        reveal(exists_test);
    }
    let source = match iter_source(ctx, &comp.iter_range.expr) {
        Some(s) => s,
        None => {
            return None;
        },
    };
    let cond = match condition_of(comp) {
        Some(Expr::Call(c)) => c,
        _ => {
            return None;
        },
    };
    match variable_position(comp, cond) {
        Some(at) => {
            let op = ast::operator_named(cond.func_name.as_str());
            compile_exists_node(source, comp.iter_var2.is_some(), op, cond, at)
        },
        None => None,
    }
}

fn test_call(ctx: &mut FilterCtx, call: &CallExpr, functions: Option<&FnTable>) -> (r: Option<
    Box<FilterNode>,
>)
    ensures
        (opt_node(r), final(ctx).names()) == test_of(
            old(ctx).names(),
            *call,
            known_in(*old(ctx), functions),
        ),
        final(ctx).bool_fields == old(ctx).bool_fields,
{
    proof {
        reveal(test_of);
    }
    let two = call.args.len() == 2;
    if two {
        match try_compile_str_bool(
            ctx,
            call.func_name.as_str(),
            &call.args[0].expr,
            &call.args[1].expr,
        ) {
            Some(f) => {
                return Some(f);
            },
            None => {},
        }
    }
    match try_compile_target_str_bool(ctx, call) {
        Some(f) => {
            return Some(f);
        },
        None => {},
    }
    if !two {
        return None;
    }
    let op = ast::operator_named(call.func_name.as_str());
    match try_compile_int_cmp(ctx, op, &call.args[0].expr, &call.args[1].expr, functions) {
        Some(f) => {
            return Some(f);
        },
        None => {},
    }
    match try_compile_str_cmp(ctx, op, &call.args[0].expr, &call.args[1].expr) {
        Some(f) => {
            return Some(f);
        },
        None => {},
    }
    if op == Some(Operator::In) {
        try_compile_in_set(ctx, &call.args[0].expr, &call.args[1].expr)
    } else {
        None
    }
}

/// What the result of a compilation stands for.
pub open spec fn compiled_view(r: Result<Box<FilterNode>, String>) -> Result<Filt, Seq<char>> {
    match r {
        Ok(n) => Ok(node_view(*n)),
        Err(m) => Err(m@),
    }
}

/// Compiles an expression to a filter.
pub fn compile_expr(ctx: &mut FilterCtx, expr: &Expr, functions: Option<&FnTable>) -> (r: Result<
    Box<FilterNode>,
    String,
>)
    ensures
        (compiled_view(r), final(ctx).names()) == filter_of(
            old(ctx).names(),
            *expr,
            known_in(*old(ctx), functions),
        ),
        final(ctx).bool_fields == old(ctx).bool_fields,
    decreases expr,
{
    match expr {
        Expr::Literal(LiteralValue::Boolean(b)) => Ok(
            Box::new(FilterNode::BoolLiteral { val: *b }),
        ),
        Expr::Ident(name) => {
            let allowed = match &ctx.bool_fields {
                Some(s) => filter_tree::text_among(s, name.as_str()),
                None => true,
            };
            if !allowed {
                return Err(String::from_str("unsupported expr kind in filter tree"));
            }
            let idx = ctx.var_idx(name.as_str());
            Ok(Box::new(FilterNode::BoolVar { idx }))
        },
        Expr::Comprehension(comp) => match try_compile_exists(ctx, &**comp) {
            Some(f) => Ok(f),
            None => Err(String::from_str("unsupported comprehension in filter tree")),
        },
        Expr::Call(call) => {
            let op = ast::operator_named(call.func_name.as_str());
            let is_or = op == Some(Operator::LogicalOr);
            let is_and = op == Some(Operator::LogicalAnd);
            if call.args.len() == 2 && (is_or || is_and) {
                let merged = if is_or {
                    try_compile_ac_or(ctx, expr)
                } else {
                    try_compile_ac_and(ctx, expr)
                };
                match merged {
                    Some(f) => {
                        return Ok(f);
                    },
                    None => {},
                }
                let a = match compile_expr(ctx, &call.args[0].expr, functions) {
                    Ok(a) => a,
                    Err(m) => {
                        return Err(m);
                    },
                };
                let b = match compile_expr(ctx, &call.args[1].expr, functions) {
                    Ok(b) => b,
                    Err(m) => {
                        return Err(m);
                    },
                };
                return if is_or {
                    Ok(Box::new(FilterNode::Or(a, b)))
                } else {
                    Ok(Box::new(FilterNode::And(a, b)))
                };
            }
            if op == Some(Operator::LogicalNot) && call.args.len() == 1 {
                return match compile_expr(ctx, &call.args[0].expr, functions) {
                    Ok(a) => Ok(Box::new(FilterNode::Not(a))),
                    Err(m) => Err(m),
                };
            }
            match test_call(ctx, call, functions) {
                Some(f) => Ok(f),
                None => {
                    let mut m = String::from_str("unsupported filter expr: ");
                    m.append(call.func_name.as_str());
                    Err(m)
                },
            }
        },
        _ => Err(String::from_str("unsupported expr kind in filter tree")),
    }
}

/// Every index of a filter is below `n`, and a call has at most three arguments.
pub open spec fn filt_in_range(f: Filt, n: nat) -> bool
    decreases f,
{
    match f {
        Filt::Test(t) => t.idx < n,
        Filt::IntAmong(i, _) => i < n,
        Filt::IntInSet(i, _) => i < n,
        Filt::Text(i, _) => i < n,
        Filt::Compare(_, a, b) => filter_tree::int_in_range(a, n) && filter_tree::int_in_range(
            b,
            n,
        ),
        Filt::BoolVar(i) => i < n,
        Filt::BoolLiteral(_) => true,
        Filt::ExistsInt(i, _, _) => i < n,
        Filt::ExistsText(i, _) => i < n,
        Filt::ExistsAmong(i, _) => i < n,
        Filt::ExistsEntry(i, _, _) => i < n,
        Filt::KeyText(i, _, _) => i < n,
        Filt::KeyInt(i, _, _, _) => i < n,
        Filt::Call(_, idxs, _, _) => idxs.len() <= 3 && forall|k: int|
            0 <= k < idxs.len() ==> #[trigger] idxs[k] < n,
        Filt::And(a, b) => filt_in_range(*a, n) && filt_in_range(*b, n),
        Filt::Or(a, b) => filt_in_range(*a, n) && filt_in_range(*b, n),
        Filt::Not(a) => filt_in_range(*a, n),
    }
}

/// The range of a node is that of what it stands for.
pub proof fn lemma_node_range(node: FilterNode, n: nat)
    ensures
        filter_tree::in_range(node, n) == filt_in_range(node_view(node), n),
    decreases node,
{
    match node {
        FilterNode::And(a, b) => {
            lemma_node_range(*a, n);
            lemma_node_range(*b, n);
        },
        FilterNode::Or(a, b) => {
            lemma_node_range(*a, n);
            lemma_node_range(*b, n);
        },
        FilterNode::Not(a) => {
            lemma_node_range(*a, n);
        },
        _ => {},
    }
}

proof fn lemma_int_range_grows(e: I64Expr, a: nat, b: nat)
    requires
        a <= b,
        filter_tree::int_in_range(e, a),
    ensures
        filter_tree::int_in_range(e, b),
    decreases e,
{
    match e {
        I64Expr::Add(x, y) => {
            lemma_int_range_grows(*x, a, b);
            lemma_int_range_grows(*y, a, b);
        },
        I64Expr::Sub(x, y) => {
            lemma_int_range_grows(*x, a, b);
            lemma_int_range_grows(*y, a, b);
        },
        I64Expr::Mul(x, y) => {
            lemma_int_range_grows(*x, a, b);
            lemma_int_range_grows(*y, a, b);
        },
        I64Expr::Div(x, y) => {
            lemma_int_range_grows(*x, a, b);
            lemma_int_range_grows(*y, a, b);
        },
        I64Expr::Mod(x, y) => {
            lemma_int_range_grows(*x, a, b);
            lemma_int_range_grows(*y, a, b);
        },
        I64Expr::Neg(x) => {
            lemma_int_range_grows(*x, a, b);
        },
        I64Expr::StrLen(x) => {
            lemma_str_range_grows(*x, a, b);
        },
        _ => {},
    }
}

proof fn lemma_str_range_grows(e: StrExpr, a: nat, b: nat)
    requires
        a <= b,
        filter_tree::str_in_range(e, a),
    ensures
        filter_tree::str_in_range(e, b),
    decreases e,
{
    match e {
        StrExpr::Concat(x, y) => {
            lemma_str_range_grows(*x, a, b);
            lemma_str_range_grows(*y, a, b);
        },
        _ => {},
    }
}

/// A filter in range stays so when variables are added.
pub proof fn lemma_range_grows(f: Filt, a: nat, b: nat)
    requires
        a <= b,
        filt_in_range(f, a),
    ensures
        filt_in_range(f, b),
    decreases f,
{
    match f {
        Filt::Compare(_, x, y) => {
            lemma_int_range_grows(x, a, b);
            lemma_int_range_grows(y, a, b);
        },
        Filt::And(x, y) => {
            lemma_range_grows(*x, a, b);
            lemma_range_grows(*y, a, b);
        },
        Filt::Or(x, y) => {
            lemma_range_grows(*x, a, b);
            lemma_range_grows(*y, a, b);
        },
        Filt::Not(x) => {
            lemma_range_grows(*x, a, b);
        },
        _ => {},
    }
}

/// Names to which new ones were added at the end, each once.
pub open spec fn names_grow(a: Seq<Seq<char>>, b: Seq<Seq<char>>) -> bool {
    &&& a.is_prefix_of(b)
    &&& forall|k: int|
        a.len() <= k < b.len() ==> !b.subrange(0, k).contains(#[trigger] b[k])
}

/// A name that is there keeps its index when new ones are added.
pub proof fn law_index_kept(a: Seq<Seq<char>>, b: Seq<Seq<char>>, name: Seq<char>)
    requires
        names_grow(a, b),
    ensures
        name_index(a, name) matches Some(i) ==> name_index(b, name) == Some(i),
    decreases b.len(),
{
    lemma_name_index(a, name);
    if a.len() == b.len() {
        assert(a =~= b);
    } else if name_index(a, name) is Some {
        let c = b.drop_last();
        let n = b.len() - 1;
        assert forall|k: int| a.len() <= k < c.len() implies !c.subrange(0, k).contains(
            #[trigger] c[k],
        ) by {
            assert(c.subrange(0, k) =~= b.subrange(0, k));
            assert(c[k] == b[k]);
        }
        assert(a.is_prefix_of(c));
        law_index_kept(a, c, name);
        let i = name_index(a, name)->0;
        assert(b.subrange(0, n)[i] == name);
        assert(!b.subrange(0, n).contains(b[n]));
    }
}

/// The names after a step hold those before it, and what the step made is in their range.
pub open spec fn step_ok(names: Seq<Seq<char>>, r: (Option<Filt>, Seq<Seq<char>>)) -> bool {
    &&& names_grow(names, r.1)
    &&& r.1.len() <= usize::MAX && r.0 is Some ==> filt_in_range(r.0->0, r.1.len())
}

pub(crate) proof fn lemma_var_idx(names: Seq<Seq<char>>, name: Seq<char>)
    ensures
        names_grow(names, var_idx(names, name).1),
        names.len() <= usize::MAX ==> var_idx(names, name).0 < var_idx(names, name).1.len(),
{
    lemma_name_index(names, name);
    let n = var_idx(names, name).1;
    assert(n.subrange(0, names.len() as int) =~= names);
}

pub(crate) proof fn lemma_resolve(names: Seq<Seq<char>>, e: Expr)
    ensures
        names_grow(names, resolve(names, e).1),
        names.len() <= usize::MAX && resolve(names, e).0 is Some ==> resolve(names, e).0->0
            < resolve(names, e).1.len(),
{
    match e {
        Expr::Ident(name) => {
            lemma_var_idx(names, name@);
        },
        Expr::Select(_) => {
            if flat_name(e) is Some {
                lemma_name_index(names, flat_name(e)->0);
                lemma_name_index(names, last_segment(flat_name(e)->0));
            }
        },
        Expr::Call(call) => match index_form(call) {
            Some((t, k)) => {
                match (flat_name(part(call, t)), string_literal(part(call, k))) {
                    (Some(prefix), Some(key)) => {
                        lemma_name_index(names, prefix + "."@ + key);
                        lemma_name_index(names, last_segment(prefix + "."@ + key));
                    },
                    _ => {},
                }
            },
            None => {},
        },
        _ => {},
    }
}

pub(crate) proof fn lemma_touched(names: Seq<Seq<char>>, e: Expr)
    ensures
        names_grow(names, touched(names, e)),
        names.len() <= usize::MAX && ident_idx(names, e) is Some ==> ident_idx(names, e)->0
            < touched(names, e).len(),
{
    match e {
        Expr::Ident(name) => {
            lemma_var_idx(names, name@);
        },
        _ => {},
    }
}

pub(crate) proof fn lemma_arith_ok(names: Seq<Seq<char>>, e: Expr, op: Option<Operator>, l: Expr)
    ensures
        step_ok(names, arith_test(names, e, op, l)),
{
    reveal(arith_test);
    match e {
        Expr::Call(call) => {
            if call.args@.len() == 2 {
                let a = call.args@[0].expr;
                let b = call.args@[1].expr;
                lemma_touched(names, a);
                lemma_touched(touched(names, a), b);
            }
        },
        _ => {},
    }
}

pub(crate) proof fn lemma_resolve_all(names: Seq<Seq<char>>, args: Seq<IdedExpr>)
    ensures
        ({
            let (s, n) = resolve_all(names, args);
            &&& names_grow(names, n)
            &&& n.len() <= usize::MAX && s is Some ==> forall|k: int|
                0 <= k < s->0.len() ==> #[trigger] s->0[k] < n.len()
        }),
    decreases args.len(),
{
    if args.len() > 0 {
        lemma_resolve_all(names, args.drop_last());
        let (before, n) = resolve_all(names, args.drop_last());
        if before is Some {
            lemma_resolve(n, args.last().expr);
            lemma_growth_chain(names, n, resolve(n, args.last().expr).1);
        }
    }
}

pub(crate) proof fn lemma_call_ok(
    names: Seq<Seq<char>>,
    op: Option<Operator>,
    l: Expr,
    r: Expr,
    fns: Option<Seq<FnModel>>,
)
    ensures
        step_ok(names, call_test(names, op, l, r, fns)),
{
    reveal(call_test);
    match l {
        Expr::Call(call) => {
            lemma_resolve_all(names, call.args@);
        },
        _ => {},
    }
}

proof fn lemma_str_expr_range(e: Expr, n: nat)
    ensures
        str_expr(e) matches Some(x) ==> filter_tree::str_in_range(x, n),
    decreases e,
{
    match e {
        Expr::Call(call) => {
            if call.args@.len() == 2 {
                lemma_str_expr_range(call.args@[0].expr, n);
                lemma_str_expr_range(call.args@[1].expr, n);
            }
        },
        _ => {},
    }
}

pub(crate) proof fn lemma_int_expr_ok(names: Seq<Seq<char>>, e: Expr)
    ensures
        names_grow(names, int_expr(names, e).1),
        int_expr(names, e).1.len() <= usize::MAX && int_expr(names, e).0 is Some
            ==> filter_tree::int_in_range(int_expr(names, e).0->0, int_expr(names, e).1.len()),
    decreases e,
{
    match e {
        Expr::Ident(name) => {
            lemma_var_idx(names, name@);
        },
        Expr::Call(call) => {
            if call.args@.len() == 2 {
                lemma_int_expr_ok(names, call.args@[0].expr);
                let (a, n1) = int_expr(names, call.args@[0].expr);
                lemma_int_expr_ok(n1, call.args@[1].expr);
                let (b, n2) = int_expr(n1, call.args@[1].expr);
                lemma_growth_chain(names, n1, n2);
                if a is Some && b is Some && n2.len() <= usize::MAX {
                    lemma_int_range_grows(a->0, n1.len(), n2.len());
                }
            } else if call.args@.len() == 1 {
                lemma_int_expr_ok(names, call.args@[0].expr);
                lemma_str_expr_range(call.args@[0].expr, names.len());
            }
        },
        _ => {},
    }
}

pub(crate) proof fn lemma_general_ok(names: Seq<Seq<char>>, op: Option<Operator>, l: Expr, r: Expr)
    ensures
        step_ok(names, general_test(names, op, l, r)),
{
    reveal(general_test);
    lemma_int_expr_ok(names, l);
    let (a, m1) = int_expr(names, l);
    lemma_int_expr_ok(m1, r);
    let (b, m2) = int_expr(m1, r);
    lemma_growth_chain(names, m1, m2);
    if a is Some && b is Some && m2.len() <= usize::MAX {
        lemma_int_range_grows(a->0, m1.len(), m2.len());
    }
}

pub(crate) proof fn lemma_growth_chain(a: Seq<Seq<char>>, b: Seq<Seq<char>>, c: Seq<Seq<char>>)
    requires
        names_grow(a, b),
        names_grow(b, c),
    ensures
        names_grow(a, c),
{
    assert forall|k: int| a.len() <= k < c.len() implies !c.subrange(0, k).contains(
        #[trigger] c[k],
    ) by {
        if k < b.len() {
            assert(c[k] == b[k]);
            assert(c.subrange(0, k) =~= b.subrange(0, k));
        }
    }
}

pub(crate) proof fn lemma_int_test_ok(
    names: Seq<Seq<char>>,
    op: Option<Operator>,
    l: Expr,
    r: Expr,
    fns: Option<Seq<FnModel>>,
)
    ensures
        step_ok(names, int_test(names, op, l, r, fns)),
{
    reveal(int_test);
    lemma_resolve(names, l);
    let (f1, n1) = var_and_int(names, l, r);
    lemma_resolve(n1, r);
    let (f2, n2) = var_and_int(n1, r, l);
    lemma_growth_chain(names, n1, n2);
    lemma_arith_ok(n2, l, op, r);
    let n3 = arith_test(n2, l, op, r).1;
    lemma_growth_chain(names, n2, n3);
    lemma_arith_ok(n3, r, mirrored(op), l);
    let n4 = arith_test(n3, r, mirrored(op), l).1;
    lemma_growth_chain(names, n3, n4);
    lemma_call_ok(n4, op, l, r, fns);
    let n5 = call_test(n4, op, l, r, fns).1;
    lemma_growth_chain(names, n4, n5);
    lemma_call_ok(n5, mirrored(op), r, l, fns);
    let n6 = call_test(n5, mirrored(op), r, l, fns).1;
    lemma_growth_chain(names, n5, n6);
    lemma_general_ok(n6, op, l, r);
    lemma_growth_chain(names, n6, general_test(n6, op, l, r).1);
}

pub(crate) proof fn lemma_str_call_ok(names: Seq<Seq<char>>, func: Seq<char>, receiver: Expr, arg: Expr)
    ensures
        step_ok(names, str_call(names, func, receiver, arg)),
{
    reveal(str_call);
    lemma_resolve(names, receiver);
}

pub(crate) proof fn lemma_str_member_ok(names: Seq<Seq<char>>, call: CallExpr)
    ensures
        step_ok(names, str_member(names, call)),
{
    reveal(str_member);
    if call.target is Some {
        lemma_resolve(names, call.target->0.expr);
    }
}

pub(crate) proof fn lemma_str_test_ok(names: Seq<Seq<char>>, op: Option<Operator>, l: Expr, r: Expr)
    ensures
        step_ok(names, str_test(names, op, l, r)),
{
    reveal(str_test);
    lemma_resolve(names, l);
    lemma_resolve(resolve(names, l).1, r);
    lemma_growth_chain(names, resolve(names, l).1, resolve(resolve(names, l).1, r).1);
}

pub(crate) proof fn lemma_member_ok(names: Seq<Seq<char>>, l: Expr, r: Expr)
    ensures
        step_ok(names, member_test(names, l, r)),
{
    reveal(member_test);
    lemma_resolve(names, l);
}

proof fn lemma_test_ok(names: Seq<Seq<char>>, call: CallExpr, known: Known)
    ensures
        step_ok(names, test_of(names, call, known)),
{
    reveal(test_of);
    let a = call.args@[0].expr;
    let b = call.args@[1].expr;
    let op = op_of(call);
    lemma_str_call_ok(names, call.func_name@, a, b);
    let n1 = if call.args@.len() == 2 {
        str_call(names, call.func_name@, a, b).1
    } else {
        names
    };
    lemma_str_member_ok(n1, call);
    let n2 = str_member(n1, call).1;
    lemma_growth_chain(names, n1, n2);
    lemma_int_test_ok(n2, op, a, b, known.functions);
    let n3 = int_test(n2, op, a, b, known.functions).1;
    lemma_growth_chain(names, n2, n3);
    lemma_str_test_ok(n3, op, a, b);
    let n4 = str_test(n3, op, a, b).1;
    lemma_growth_chain(names, n3, n4);
    lemma_member_ok(n4, a, b);
    lemma_growth_chain(names, n4, member_test(n4, a, b).1);
}

pub(crate) proof fn lemma_exists_ok(names: Seq<Seq<char>>, comp: ComprehensionExpr)
    ensures
        step_ok(names, exists_test(names, comp)),
{
    reveal(exists_test);
    let e = comp.iter_range.expr;
    match e {
        Expr::Call(call) => match index_form(call) {
            Some((t, k)) => {
                lemma_resolve(names, part(call, t));
            },
            None => {},
        },
        _ => {},
    }
    lemma_resolve(map_key(names, e).1, e);
}

pub(crate) proof fn lemma_merged_ok(names: Seq<Seq<char>>, any: bool, e: Expr)
    ensures
        step_ok(names, merged_contains(names, any, e)),
{
    reveal(merged_contains);
    let op = if any {
        Operator::LogicalOr
    } else {
        Operator::LogicalAnd
    };
    match contains_terms(op, e) {
        Some(terms) => {
            lemma_var_idx(names, terms[0].0);
        },
        None => {},
    }
}

/// A compiled filter reads only the variables that its names list, and the names that were
/// there before keep their places.
pub proof fn law_filter_in_range(names: Seq<Seq<char>>, e: Expr, known: Known)
    ensures
        names_grow(names, filter_of(names, e, known).1),
        filter_of(names, e, known).1.len() <= usize::MAX ==> (filter_of(
            names,
            e,
            known,
        ).0 matches Ok(f) ==> filt_in_range(f, filter_of(names, e, known).1.len())),
    decreases e,
{
    match e {
        Expr::Ident(name) => {
            lemma_var_idx(names, name@);
        },
        Expr::Comprehension(comp) => {
            lemma_exists_ok(names, *comp);
        },
        Expr::Call(call) => {
            let op = op_of(call);
            let logic = call.args@.len() == 2 && (op == Some(Operator::LogicalOr) || op == Some(
                Operator::LogicalAnd,
            ));
            if logic {
                lemma_merged_ok(names, op == Some(Operator::LogicalOr), e);
                let (f, n) = merged_contains(names, op == Some(Operator::LogicalOr), e);
                law_filter_in_range(n, call.args@[0].expr, known);
                let (a, n1) = filter_of(n, call.args@[0].expr, known);
                law_filter_in_range(n1, call.args@[1].expr, known);
                let (b, n2) = filter_of(n1, call.args@[1].expr, known);
                lemma_growth_chain(names, n, n1);
                lemma_growth_chain(names, n1, n2);
                if a is Ok && b is Ok && n2.len() <= usize::MAX {
                    lemma_range_grows(a->Ok_0, n1.len(), n2.len());
                }
            } else if op == Some(Operator::LogicalNot) && call.args@.len() == 1 {
                law_filter_in_range(names, call.args@[0].expr, known);
            } else {
                lemma_test_ok(names, call, known);
            }
        },
        _ => {},
    }
}

/// A compiled expression over typed arrays, in the most specific form.
#[derive(Debug)]
pub enum CompiledExpr {
    /// A boolean expression: `port == 80`.
    Bool(BoolClosure),
    /// An integer expression: `port + 1`.
    I64(I64Closure),
    /// A double, as its 64 bits.
    F64(u64),
    /// A string expression.
    Str(StrExpr),
    /// Any value.
    Value(Value),
}

/// What a string expression evaluates to over the strings of a typed array.
pub open spec fn str_typed_value(e: StrExpr, strings: Seq<Seq<char>>) -> Seq<char>
    decreases e,
{
    match e {
        StrExpr::Literal(s) => s@,
        StrExpr::Var(idx) => strings[idx as int],
        StrExpr::Concat(a, b) => str_typed_value(*a, strings) + str_typed_value(*b, strings),
    }
}

fn eval_str_typed(e: &StrExpr, strings: &[String]) -> (r: String)
    requires
        filter_tree::str_in_range(*e, strings@.len()),
    ensures
        r@ == str_typed_value(*e, objects::texts(strings@)),
    decreases e,
{
    match e {
        StrExpr::Literal(s) => s.clone(),
        StrExpr::Var(idx) => strings[*idx].clone(),
        StrExpr::Concat(a, b) => {
            let mut s = eval_str_typed(&**a, strings);
            let t = eval_str_typed(&**b, strings);
            s.append(t.as_str());
            s
        },
    }
}

/// The expression can be evaluated over the typed arrays.
pub open spec fn compiled_ready(c: CompiledExpr, ints: Seq<i64>, strings: Seq<Seq<char>>) -> bool {
    match c {
        CompiledExpr::Bool(f) => closure_in_range(f, ints.len()) && closure_in_range(
            f,
            strings.len(),
        ) && closure_fits(f, strings),
        CompiledExpr::I64(f) => closure_int_in_range(f, ints.len()) && closure_int_in_range(
            f,
            strings.len(),
        ) && closure_int_fits(f, strings),
        CompiledExpr::Str(e) => filter_tree::str_in_range(e, strings.len()),
        _ => true,
    }
}

/// The value that an expression has over the typed arrays.
pub open spec fn compiled_value(c: CompiledExpr, ints: Seq<i64>, strings: Seq<Seq<char>>) -> Val {
    match c {
        CompiledExpr::Bool(f) => Val::Bool(closure_holds(f, ints, strings)),
        CompiledExpr::I64(f) => Val::Int(int_given(f, ints, strings)),
        CompiledExpr::F64(b) => Val::Float(b),
        CompiledExpr::Str(e) => Val::String(str_typed_value(e, strings)),
        CompiledExpr::Value(v) => v@,
    }
}

impl CompiledExpr {
    /// Evaluates a boolean expression.
    pub fn eval_bool(&self, ints: &[i64], strings: &[String]) -> (r: bool)
        requires
            self is Bool,
            compiled_ready(*self, ints@, objects::texts(strings@)),
        ensures
            Val::Bool(r) == compiled_value(*self, ints@, objects::texts(strings@)),
    {
        match self {
            CompiledExpr::Bool(f) => f.call(ints, strings),
            _ => false,
        }
    }

    /// Evaluates the expression to a value of its type.
    pub fn eval_value(&self, ints: &[i64], strings: &[String]) -> (r: Result<
        Value,
        ExecutionError,
    >)
        requires
            compiled_ready(*self, ints@, objects::texts(strings@)),
        ensures
            r matches Ok(v) && v@ == compiled_value(*self, ints@, objects::texts(strings@)),
    {
        match self {
            CompiledExpr::Bool(f) => Ok(Value::Bool(f.call(ints, strings))),
            CompiledExpr::I64(f) => Ok(Value::Int(f.call(ints, strings))),
            CompiledExpr::F64(b) => Ok(Value::Float(*b)),
            CompiledExpr::Str(e) => Ok(Value::String(Arc::new(eval_str_typed(e, strings)))),
            CompiledExpr::Value(v) => Ok(v.clone()),
        }
    }

    /// The boolean closure, where the expression is boolean.
    pub fn as_bool(&self) -> (r: Option<&BoolClosure>)
        ensures
            match r {
                Some(f) => *self == CompiledExpr::Bool(*f),
                None => !(self is Bool),
            },
    {
        match self {
            CompiledExpr::Bool(f) => Some(f),
            _ => None,
        }
    }

    /// The integer closure, where the expression is an integer.
    pub fn as_i64(&self) -> (r: Option<&I64Closure>)
        ensures
            match r {
                Some(f) => *self == CompiledExpr::I64(*f),
                None => !(self is I64),
            },
    {
        match self {
            CompiledExpr::I64(f) => Some(f),
            _ => None,
        }
    }
}

/// Compiles a node to an expression over typed arrays, which is always boolean.
pub fn compile_closure(node: &FilterNode) -> (r: CompiledExpr)
    ensures
        r matches CompiledExpr::Bool(c) && bool_means(c, *node),
{
    CompiledExpr::Bool(compile_closure_bool(node))
}

/// A compiled filter: the tree, the same over typed arrays, and the names of its variables.
#[derive(Debug)]
pub struct CompiledFilterTree {
    pub filter: Box<FilterNode>,
    pub compiled: CompiledExpr,
    pub var_names: Vec<String>,
    /// Whether the tree reads lists, maps or calls functions, which typed arrays do not hold.
    pub needs_values: bool,
}

/// The parts of a compiled filter belong together: the closure says what the tree says, and
/// the tree reads only variables that are named.
pub open spec fn tree_wf(t: CompiledFilterTree) -> bool {
    &&& t.compiled matches CompiledExpr::Bool(c) && bool_means(c, *t.filter)
    &&& t.needs_values == filter_tree::reads_values(*t.filter)
    &&& filter_tree::in_range(*t.filter, t.var_names@.len())
    &&& filter_tree::cheap_first(*t.filter)
}

/// The parts of a compiled filter belong together whatever answers it has.
proof fn lemma_alike_wf(t: CompiledFilterTree, u: CompiledFilterTree)
    requires
        filter_tree::alike(*t.filter, *u.filter),
        u.compiled == t.compiled,
        u.var_names == t.var_names,
        u.needs_values == t.needs_values,
    ensures
        tree_wf(t) ==> tree_wf(u),
{
    let e = Seq::<i64>::empty();
    let a = *t.filter;
    let b = *u.filter;
    assert forall|c: BoolClosure| bool_means(c, a) implies #[trigger] bool_means(c, b) by {
        assert forall|i: Seq<i64>, s: Seq<Seq<char>>| #[trigger]
            closure_holds(c, i, s) == filter_tree::typed_holds(b, i, s) by {
            filter_tree::law_alike(a, b, Seq::empty(), i, s, 0);
        }
        assert forall|k: nat| filter_tree::in_range(b, k) implies #[trigger] closure_in_range(
            c,
            k,
        ) by {
            filter_tree::law_alike(a, b, Seq::empty(), e, Seq::empty(), k);
        }
        assert forall|s: Seq<Seq<char>>| filter_tree::fits_typed(
            b,
            s,
        ) implies #[trigger] closure_fits(c, s) by {
            filter_tree::law_alike(a, b, Seq::empty(), e, s, 0);
        }
    }
    filter_tree::law_alike(a, b, Seq::empty(), e, Seq::empty(), t.var_names@.len());
}

/// The typed values of a variable: its integer, or zero or one for a boolean, and its
/// string.
pub open spec fn typed_pair(v: Option<Val>) -> (i64, Seq<char>) {
    match v {
        Some(Val::Int(i)) => (i, Seq::empty()),
        Some(Val::String(s)) => (0, s),
        Some(Val::Bool(b)) => (
            if b {
                1
            } else {
                0
            },
            Seq::empty(),
        ),
        _ => (0, Seq::empty()),
    }
}

impl CompiledFilterTree {
    /// Evaluates the filter on the values of its variables.
    pub fn eval(&self, vars: &[Value]) -> (r: bool)
        requires
            filter_tree::in_range(*self.filter, vars@.len()),
            filter_tree::fits(*self.filter, objects::values_view(vars@)),
        ensures
            r == filter_tree::holds(*self.filter, objects::values_view(vars@)),
    {
        self.filter.eval(vars)
    }

    /// The first request, in the order of evaluation, to which there is no answer yet.
    pub fn lacking(&self, vars: &[Value]) -> (r: Option<HostRequest>)
        requires
            filter_tree::in_range(*self.filter, vars@.len()),
            filter_tree::fits(*self.filter, objects::values_view(vars@)),
        ensures
            match r {
                Some(q) => filter_tree::asks(*self.filter, objects::values_view(vars@), q@),
                None => filter_tree::all_answered(*self.filter, objects::values_view(vars@)),
            },
    {
        self.filter.lacking(vars)
    }

    /// Adds an answer to the function that asked for it.
    pub fn add_answer(&mut self, request: &HostRequest, answer: &Result<Value, ExecutionError>)
        ensures
            filter_tree::answered(
                *old(self).filter,
                *final(self).filter,
                Seq::empty(),
                request@,
                error::outcome(*answer),
            ),
            final(self).compiled == old(self).compiled,
            final(self).var_names == old(self).var_names,
            final(self).needs_values == old(self).needs_values,
            tree_wf(*old(self)) ==> tree_wf(*final(self)),
    {
        let ghost before = *self.filter;
        (&mut *self.filter).add_answer(request, answer);
        proof {
            let o = error::outcome(*answer);
            filter_tree::law_answered(before, *self.filter, request@, o, Seq::empty());
            lemma_alike_wf(*old(self), *self);
        }
    }

    /// Forgets all answers, so that the next evaluation asks for its own.
    pub fn clear_answers(&mut self)
        ensures
            filter_tree::unanswered(*old(self).filter, *final(self).filter),
            final(self).compiled == old(self).compiled,
            final(self).var_names == old(self).var_names,
            final(self).needs_values == old(self).needs_values,
            tree_wf(*old(self)) ==> tree_wf(*final(self)),
    {
        let ghost before = *self.filter;
        (&mut *self.filter).clear_answers();
        proof {
            filter_tree::law_unanswered(before, *self.filter);
            lemma_alike_wf(*old(self), *self);
        }
    }

    /// The values of the variables in a context; null where one is missing.
    pub fn bind_vars(&self, ctx: &Context) -> (r: Vec<Value>)
        ensures
            r@.len() == self.var_names@.len(),
            forall|i: int|
                0 <= i < r@.len() ==> (#[trigger] r@[i])@ == (match context::variable(
                    ctx@,
                    self.var_names@[i]@,
                ) {
                    Some(v) => v,
                    None => Val::Null,
                }),
    {
        let mut out: Vec<Value> = Vec::new();
        let mut i: usize = 0;
        while i < self.var_names.len()
            invariant
                i <= self.var_names@.len(),
                out@.len() == i,
                forall|j: int|
                    0 <= j < i ==> (#[trigger] out@[j])@ == (match context::variable(
                        ctx@,
                        self.var_names@[j]@,
                    ) {
                        Some(v) => v,
                        None => Val::Null,
                    }),
            decreases self.var_names@.len() - i,
        {
            let v = match ctx.get_variable(self.var_names[i].as_str()) {
                Some(v) => v.clone(),
                None => Value::Null,
            };
            out.push(v);
            i += 1;
        }
        out
    }

    /// The typed arrays of the variables in a context.
    pub fn bind_typed(&self, ctx: &Context) -> (r: (Vec<i64>, Vec<String>))
        ensures
            r.0@.len() == self.var_names@.len(),
            r.1@.len() == self.var_names@.len(),
            forall|i: int|
                #![trigger r.0@[i]]
                #![trigger r.1@[i]]
                0 <= i < self.var_names@.len() ==> (r.0@[i], r.1@[i]@) == typed_pair(
                    context::variable(ctx@, self.var_names@[i]@),
                ),
    {
        let mut ints: Vec<i64> = Vec::new();
        let mut strs: Vec<String> = Vec::new();
        let mut i: usize = 0;
        while i < self.var_names.len()
            invariant
                i <= self.var_names@.len(),
                ints@.len() == i,
                strs@.len() == i,
                forall|j: int|
                    #![trigger ints@[j]]
                    #![trigger strs@[j]]
                    0 <= j < i ==> (ints@[j], strs@[j]@) == typed_pair(
                        context::variable(ctx@, self.var_names@[j]@),
                    ),
            decreases self.var_names@.len() - i,
        {
            let (n, s) = match ctx.get_variable(self.var_names[i].as_str()) {
                Some(Value::Int(v)) => (*v, String::new()),
                Some(Value::String(s)) => (0, s.as_str().to_owned()),
                Some(Value::Bool(b)) => (
                    if *b {
                        1
                    } else {
                        0
                    },
                    String::new(),
                ),
                _ => (0, String::new()),
            };
            ints.push(n);
            strs.push(s);
            i += 1;
        }
        (ints, strs)
    }
}

fn finish(filter: Box<FilterNode>, ctx: FilterCtx) -> (r: CompiledFilterTree)
    requires
        filter_tree::in_range(*filter, ctx.var_names@.len()),
    ensures
        tree_wf(r),
        *r.filter == filter_tree::reordered(*filter),
        r.var_names == ctx.var_names,
{
    let mut filter = filter;
    let ghost before = *filter;
    (&mut *filter).optimize_order();
    proof {
        filter_tree::law_reordering_preserves(
            before,
            Seq::empty(),
            Seq::empty(),
            Seq::empty(),
            ctx.var_names@.len(),
        );
    }
    let needs_values = filter.needs_values();
    let compiled = compile_closure(&filter);
    CompiledFilterTree { filter, compiled, var_names: ctx.var_names, needs_values }
}

/// The result of compiling an expression, starting from some names.
pub open spec fn tree_of(
    r: Result<CompiledFilterTree, String>,
    names: Seq<Seq<char>>,
    e: Expr,
    known: Known,
) -> bool {
    let (f, n) = filter_of(names, e, known);
    match r {
        Ok(t) => {
            &&& tree_wf(t)
            &&& objects::texts(t.var_names@) == n
            &&& exists|node: FilterNode|
                #![trigger node_view(node)]
                f == Ok::<Filt, Seq<char>>(node_view(node)) && *t.filter
                    == filter_tree::reordered(node)
        },
        Err(m) => f == Err::<Filt, Seq<char>>(m@),
    }
}

fn compile_tree(ctx: FilterCtx, expr: &Expr, functions: Option<&FnTable>) -> (r: Result<
    CompiledFilterTree,
    String,
>)
    ensures
        tree_of(r, ctx.names(), *expr, known_in(ctx, functions)),
{
    let mut c = ctx;
    match compile_expr(&mut c, expr, functions) {
        Ok(filter) => {
            let count = c.var_names.len();
            proof {
                law_filter_in_range(ctx.names(), *expr, known_in(ctx, functions));
                lemma_node_range(*filter, c.var_names@.len());
                assert(c.names().len() == count);
            }
            let ghost node = *filter;
            let t = finish(filter, c);
            assert(node_view(node) == node_view(node));
            Ok(t)
        },
        Err(m) => Err(m),
    }
}

/// Compiles an expression to a filter over the fields of a schema: the position of a field
/// is its index. An identifier by itself is accepted where it names a boolean field.
pub fn compile_filter_tree_with_schema(
    expr: &Expression,
    field_names: &Vec<String>,
    bool_fields: &Vec<String>,
    functions: Option<&FnTable>,
) -> (r: Result<CompiledFilterTree, String>)
    ensures
        tree_of(
            r,
            objects::texts(field_names@),
            expr.expr,
            Known {
                bool_fields: Some(objects::texts(bool_fields@)),
                functions: match functions {
                    Some(t) => Some(t@),
                    None => None,
                },
            },
        ),
{
    let ctx = FilterCtx::with_schema(field_names, bool_fields);
    compile_tree(ctx, &expr.expr, functions)
}

/// Compiles an expression to a filter; its variables get their indices as they are met.
pub fn compile_filter_tree(expr: &Expression, functions: Option<&FnTable>) -> (r: Result<
    CompiledFilterTree,
    String,
>)
    ensures
        tree_of(
            r,
            Seq::empty(),
            expr.expr,
            Known {
                bool_fields: None,
                functions: match functions {
                    Some(t) => Some(t@),
                    None => None,
                },
            },
        ),
{
    compile_tree(FilterCtx::new(), &expr.expr, functions)
}

} // verus!
