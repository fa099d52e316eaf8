//! What an evaluation can fail with, and what it can ask of its host.
//!
//! Floating-point arithmetic and the functions that a program registers are computed by
//! the host. An evaluation takes the answers that are known in a [`HostTable`]; where one
//! is missing it stops with [`ExecutionError::HostNeeded`], and can be run again once the
//! answer has been added. A call of a registered function says where it stands, so that
//! every call has an answer of its own.

use crate::objects;
use crate::objects::{Val, Value};
use crate::strings;
use vstd::prelude::*;
use vstd::string::*;

verus! {

/// An arithmetic operator on doubles.
#[derive(Clone, Copy, Debug, PartialEq, Eq, Structural)]
pub enum FloatOp {
    Add,
    Sub,
    Mul,
    Div,
}

/// Where a call stands: the way to it from the root of its expression, part by part, and the
/// rounds of the loops that it is in.
#[derive(Debug, PartialEq)]
pub struct CallSite {
    pub path: Vec<usize>,
    pub rounds: Vec<usize>,
}

/// What a [`CallSite`] stands for.
pub struct Site {
    pub path: Seq<usize>,
    pub rounds: Seq<usize>,
}

impl Site {
    /// The root of an expression, outside of loops.
    pub open spec fn root() -> Site {
        Site { path: Seq::empty(), rounds: Seq::empty() }
    }
}

impl View for CallSite {
    type V = Site;

    open spec fn view(&self) -> Site {
        Site { path: self.path@, rounds: self.rounds@ }
    }
}

/// Calls in different parts of an expression stand at different places.
pub proof fn law_sites_apart(
    p: Seq<usize>,
    i: usize,
    j: usize,
    q: Seq<usize>,
    r: Seq<usize>,
    rounds: Seq<usize>,
    others: Seq<usize>,
)
    requires
        i != j,
    ensures
        (Site { path: p.push(i) + q, rounds }) != (Site { path: p.push(j) + r, rounds: others }),
{
    assert((p.push(i) + q)[p.len() as int] == i);
    assert((p.push(j) + r)[p.len() as int] == j);
}

pub(crate) fn clone_indices(s: &Vec<usize>) -> (r: Vec<usize>)
    ensures
        r@ == s@,
{
    let mut out: Vec<usize> = Vec::new();
    let mut i: usize = 0;
    while i < s.len()
        invariant
            i <= s@.len(),
            out@ == s@.subrange(0, i as int),
        decreases s@.len() - i,
    {
        out.push(s[i]);
        i += 1;
        assert(out@ =~= s@.subrange(0, i as int));
    }
    assert(out@ =~= s@);
    out
}

/// A way that is one step longer.
pub(crate) fn step(path: &Vec<usize>, k: usize) -> (r: Vec<usize>)
    ensures
        r@ == path@.push(k),
{
    let mut r = clone_indices(path);
    r.push(k);
    r
}

pub(crate) fn indices_same(a: &Vec<usize>, b: &Vec<usize>) -> (r: bool)
    ensures
        r == (a@ == b@),
{
    if a.len() != b.len() {
        return false;
    }
    let mut i: usize = 0;
    while i < a.len()
        invariant
            i <= a@.len(),
            a@.len() == b@.len(),
            forall|j: int| 0 <= j < i ==> a@[j] == b@[j],
        decreases a@.len() - i,
    {
        if a[i] != b[i] {
            return false;
        }
        i += 1;
    }
    assert(a@ =~= b@);
    true
}

impl CallSite {
    /// The root of an expression, outside of loops.
    pub fn root() -> (r: CallSite)
        ensures
            r@ == Site::root(),
    {
        let r = CallSite { path: Vec::new(), rounds: Vec::new() };
        assert(r@.path =~= Seq::empty());
        assert(r@.rounds =~= Seq::empty());
        r
    }

    /// Whether two places are the same.
    pub fn same(&self, other: &CallSite) -> (r: bool)
        ensures
            r == (self@ == other@),
    {
        indices_same(&self.path, &other.path) && indices_same(&self.rounds, &other.rounds)
    }
}

impl Clone for CallSite {
    fn clone(&self) -> (r: Self)
        ensures
            r@ == self@,
    {
        CallSite { path: clone_indices(&self.path), rounds: clone_indices(&self.rounds) }
    }
}

/// A question to the host.
#[derive(Debug, PartialEq)]
pub enum HostRequest {
    /// An arithmetic operation on two doubles, given as bits.
    Arithmetic(FloatOp, u64, u64),
    /// The double that a text writes, as `double` reads it.
    ParseFloat(String),
    /// The text that shows a value, as `string` gives it.
    Show(Value),
    /// A call of a registered function: where it stands, the name, the target, if any, and
    /// the arguments.
    Call(CallSite, String, Option<Value>, Vec<Value>),
    /// A call of a registered overload: where it stands, its number, and the arguments.
    Overload(CallSite, u64, Vec<Value>),
}

/// What a [`HostRequest`] stands for.
pub enum Req {
    Arithmetic(FloatOp, u64, u64),
    ParseFloat(Seq<char>),
    Show(Val),
    Call(Site, Seq<char>, Option<Val>, Seq<Val>),
    Overload(Site, u64, Seq<Val>),
}

/// Why an evaluation gave no value.
#[derive(Debug, PartialEq)]
pub enum ExecutionError {
    NoSuchOverload,
    NoSuchKey(String),
    UndeclaredReference(String),
    FunctionError { function: String, message: String },
    InvalidArgumentCount { expected: usize, actual: usize },
    UnsupportedKeyType(Value),
    UnsupportedMapIndex(Value),
    UnsupportedListIndex(Value),
    IndexOutOfBounds(Value),
    ValuesNotComparable(Value, Value),
    UnsupportedUnaryOperator(&'static str, Value),
    UnsupportedBinaryOperator(&'static str, Value, Value),
    Overflow(&'static str, Value, Value),
    DivisionByZero(Value),
    RemainderByZero(Value),
    UnexpectedType { got: String, want: String },
    InternalError(String),
    HostNeeded(HostRequest),
}

/// What an [`ExecutionError`] stands for.
pub enum Fault {
    NoSuchOverload,
    NoSuchKey(Seq<char>),
    UndeclaredReference(Seq<char>),
    FunctionError(Seq<char>, Seq<char>),
    InvalidArgumentCount(nat, nat),
    UnsupportedKeyType(Val),
    UnsupportedMapIndex(Val),
    UnsupportedListIndex(Val),
    IndexOutOfBounds(Val),
    ValuesNotComparable(Val, Val),
    UnsupportedUnaryOperator(Seq<char>, Val),
    UnsupportedBinaryOperator(Seq<char>, Val, Val),
    Overflow(Seq<char>, Val, Val),
    DivisionByZero(Val),
    RemainderByZero(Val),
    UnexpectedType(Seq<char>, Seq<char>),
    InternalError(Seq<char>),
    HostNeeded(Req),
}

/// What an evaluation gives: a value, or a fault.
pub type Outcome = Result<Val, Fault>;

impl View for HostRequest {
    type V = Req;

    open spec fn view(&self) -> Req {
        match *self {
            HostRequest::Arithmetic(op, a, b) => Req::Arithmetic(op, a, b),
            HostRequest::ParseFloat(s) => Req::ParseFloat(s@),
            HostRequest::Show(v) => Req::Show(v@),
            HostRequest::Call(s, n, t, a) => Req::Call(
                s@,
                n@,
                opt_view(t),
                objects::values_view(a@),
            ),
            HostRequest::Overload(s, n, a) => Req::Overload(s@, n, objects::values_view(a@)),
        }
    }
}

/// What an optional value stands for.
pub open spec fn opt_view(o: Option<Value>) -> Option<Val> {
    match o {
        Some(v) => Some(v@),
        None => None,
    }
}

impl View for ExecutionError {
    type V = Fault;

    open spec fn view(&self) -> Fault {
        match *self {
            ExecutionError::NoSuchOverload => Fault::NoSuchOverload,
            ExecutionError::NoSuchKey(s) => Fault::NoSuchKey(s@),
            ExecutionError::UndeclaredReference(s) => Fault::UndeclaredReference(s@),
            ExecutionError::FunctionError { function, message } => Fault::FunctionError(
                function@,
                message@,
            ),
            ExecutionError::InvalidArgumentCount { expected, actual } => {
                Fault::InvalidArgumentCount(expected as nat, actual as nat)
            },
            ExecutionError::UnsupportedKeyType(v) => Fault::UnsupportedKeyType(v@),
            ExecutionError::UnsupportedMapIndex(v) => Fault::UnsupportedMapIndex(v@),
            ExecutionError::UnsupportedListIndex(v) => Fault::UnsupportedListIndex(v@),
            ExecutionError::IndexOutOfBounds(v) => Fault::IndexOutOfBounds(v@),
            ExecutionError::ValuesNotComparable(a, b) => Fault::ValuesNotComparable(a@, b@),
            ExecutionError::UnsupportedUnaryOperator(s, v) => {
                Fault::UnsupportedUnaryOperator(s@, v@)
            },
            ExecutionError::UnsupportedBinaryOperator(s, a, b) => {
                Fault::UnsupportedBinaryOperator(s@, a@, b@)
            },
            ExecutionError::Overflow(s, a, b) => Fault::Overflow(s@, a@, b@),
            ExecutionError::DivisionByZero(v) => Fault::DivisionByZero(v@),
            ExecutionError::RemainderByZero(v) => Fault::RemainderByZero(v@),
            ExecutionError::UnexpectedType { got, want } => Fault::UnexpectedType(got@, want@),
            ExecutionError::InternalError(s) => Fault::InternalError(s@),
            ExecutionError::HostNeeded(r) => Fault::HostNeeded(r@),
        }
    }
}

/// What the result of an evaluation stands for.
pub open spec fn outcome(r: Result<Value, ExecutionError>) -> Outcome {
    match r {
        Ok(v) => Ok(v@),
        Err(e) => Err(e@),
    }
}

fn clone_opt_value(o: &Option<Value>) -> (r: Option<Value>)
    ensures
        opt_view(r) == opt_view(*o),
{
    match o {
        Some(v) => Some(v.clone()),
        None => None,
    }
}

impl Clone for HostRequest {
    fn clone(&self) -> (r: Self)
        ensures
            r@ == self@,
    {
        match self {
            HostRequest::Arithmetic(op, a, b) => HostRequest::Arithmetic(*op, *a, *b),
            HostRequest::ParseFloat(s) => HostRequest::ParseFloat(s.clone()),
            HostRequest::Show(v) => HostRequest::Show(v.clone()),
            HostRequest::Call(s, n, t, a) => HostRequest::Call(
                s.clone(),
                n.clone(),
                clone_opt_value(t),
                objects::clone_values(a.as_slice()),
            ),
            HostRequest::Overload(s, n, a) => HostRequest::Overload(
                s.clone(),
                *n,
                objects::clone_values(a.as_slice()),
            ),
        }
    }
}

impl Clone for ExecutionError {
    fn clone(&self) -> (r: Self)
        ensures
            r@ == self@,
    {
        match self {
            ExecutionError::NoSuchOverload => ExecutionError::NoSuchOverload,
            ExecutionError::NoSuchKey(s) => ExecutionError::NoSuchKey(s.clone()),
            ExecutionError::UndeclaredReference(s) => ExecutionError::UndeclaredReference(
                s.clone(),
            ),
            ExecutionError::FunctionError { function, message } => ExecutionError::FunctionError {
                function: function.clone(),
                message: message.clone(),
            },
            ExecutionError::InvalidArgumentCount { expected, actual } => {
                ExecutionError::InvalidArgumentCount { expected: *expected, actual: *actual }
            },
            ExecutionError::UnsupportedKeyType(v) => ExecutionError::UnsupportedKeyType(v.clone()),
            ExecutionError::UnsupportedMapIndex(v) => ExecutionError::UnsupportedMapIndex(
                v.clone(),
            ),
            ExecutionError::UnsupportedListIndex(v) => ExecutionError::UnsupportedListIndex(
                v.clone(),
            ),
            ExecutionError::IndexOutOfBounds(v) => ExecutionError::IndexOutOfBounds(v.clone()),
            ExecutionError::ValuesNotComparable(a, b) => ExecutionError::ValuesNotComparable(
                a.clone(),
                b.clone(),
            ),
            ExecutionError::UnsupportedUnaryOperator(s, v) => {
                ExecutionError::UnsupportedUnaryOperator(s, v.clone())
            },
            ExecutionError::UnsupportedBinaryOperator(s, a, b) => {
                ExecutionError::UnsupportedBinaryOperator(s, a.clone(), b.clone())
            },
            ExecutionError::Overflow(s, a, b) => ExecutionError::Overflow(s, a.clone(), b.clone()),
            ExecutionError::DivisionByZero(v) => ExecutionError::DivisionByZero(v.clone()),
            ExecutionError::RemainderByZero(v) => ExecutionError::RemainderByZero(v.clone()),
            ExecutionError::UnexpectedType { got, want } => ExecutionError::UnexpectedType {
                got: got.clone(),
                want: want.clone(),
            },
            ExecutionError::InternalError(s) => ExecutionError::InternalError(s.clone()),
            ExecutionError::HostNeeded(r) => ExecutionError::HostNeeded(r.clone()),
        }
    }
}

impl ExecutionError {
    pub fn function_error(function: &str, message: &str) -> (r: ExecutionError)
        ensures
            r@ == Fault::FunctionError(function@, message@),
    {
        ExecutionError::FunctionError {
            function: function.to_owned(),
            message: message.to_owned(),
        }
    }

    pub fn no_such_key(name: &str) -> (r: ExecutionError)
        ensures
            r@ == Fault::NoSuchKey(name@),
    {
        ExecutionError::NoSuchKey(name.to_owned())
    }

    pub fn undeclared_reference(name: &str) -> (r: ExecutionError)
        ensures
            r@ == Fault::UndeclaredReference(name@),
    {
        ExecutionError::UndeclaredReference(name.to_owned())
    }

    pub fn internal(message: &str) -> (r: ExecutionError)
        ensures
            r@ == Fault::InternalError(message@),
    {
        ExecutionError::InternalError(message.to_owned())
    }
}

/// The answers of the host that are known.
#[derive(Debug)]
pub struct HostTable {
    pub answers: Vec<(HostRequest, Result<Value, ExecutionError>)>,
}

impl View for HostTable {
    type V = Seq<(Req, Outcome)>;

    open spec fn view(&self) -> Seq<(Req, Outcome)> {
        self.answers@.map_values(
            |a: (HostRequest, Result<Value, ExecutionError>)| (a.0@, outcome(a.1)),
        )
    }
}

/// The first answer to a request, from position `from` on.
pub open spec fn answer_from(t: Seq<(Req, Outcome)>, req: Req, from: int) -> Option<Outcome>
    decreases t.len() - from,
{
    if from < 0 || from >= t.len() {
        None
    } else if t[from].0 == req {
        Some(t[from].1)
    } else {
        answer_from(t, req, from + 1)
    }
}

/// What an evaluation gets for a request: the known answer, or the fault that asks for it.
pub open spec fn ask(t: Seq<(Req, Outcome)>, req: Req) -> Outcome {
    match answer_from(t, req, 0) {
        Some(o) => o,
        None => Err(Fault::HostNeeded(req)),
    }
}

impl HostRequest {
    /// Whether two requests are the same.
    pub fn same(&self, other: &HostRequest) -> (r: bool)
        ensures
            r == (self@ == other@),
    {
        match (self, other) {
            (HostRequest::Arithmetic(o, a, b), HostRequest::Arithmetic(p, c, d)) => *o == *p && *a
                == *c && *b == *d,
            (HostRequest::ParseFloat(a), HostRequest::ParseFloat(b)) => strings::str_eq(
                a.as_str(),
                b.as_str(),
            ),
            (HostRequest::Show(a), HostRequest::Show(b)) => objects::values_same(a, b),
            (HostRequest::Call(p, n, s, a), HostRequest::Call(q, m, t, b)) => {
                p.same(q) && strings::str_eq(n.as_str(), m.as_str()) && (match (s, t) {
                    (Some(x), Some(y)) => objects::values_same(x, y),
                    (None, None) => true,
                    _ => false,
                }) && objects::value_lists_same(a.as_slice(), b.as_slice())
            },
            (HostRequest::Overload(p, n, a), HostRequest::Overload(q, m, b)) => p.same(q) && *n
                == *m && objects::value_lists_same(a.as_slice(), b.as_slice()),
            _ => false,
        }
    }
}

pub(crate) fn clone_result(r: &Result<Value, ExecutionError>) -> (c: Result<Value, ExecutionError>)
    ensures
        outcome(c) == outcome(*r),
{
    match r {
        Ok(v) => Ok(v.clone()),
        Err(e) => Err(e.clone()),
    }
}

impl HostTable {
    /// A table with no answers.
    pub fn new() -> (r: HostTable)
        ensures
            r@ == Seq::<(Req, Outcome)>::empty(),
    {
        let r = HostTable { answers: Vec::new() };
        assert(r@ =~= Seq::<(Req, Outcome)>::empty());
        r
    }

    /// Adds an answer.
    pub fn add(&mut self, request: HostRequest, answer: Result<Value, ExecutionError>)
        ensures
            final(self)@ == old(self)@.push((request@, outcome(answer))),
    {
        self.answers.push((request, answer));
        assert(self@ =~= old(self)@.push((request@, outcome(answer))));
    }

    /// The answer to a request.
    pub fn ask(&self, request: HostRequest) -> (r: Result<Value, ExecutionError>)
        ensures
            outcome(r) == ask(self@, request@),
    {
        let mut i: usize = 0;
        while i < self.answers.len()
            invariant
                i <= self.answers@.len(),
                answer_from(self@, request@, 0) == answer_from(self@, request@, i as int),
            decreases self.answers@.len() - i,
        {
            assert(self@[i as int] == (
                self.answers@[i as int].0@,
                outcome(self.answers@[i as int].1),
            ));
            if self.answers[i].0.same(&request) {
                return clone_result(&self.answers[i].1);
            }
            i += 1;
        }
        Err(ExecutionError::HostNeeded(request))
    }

    /// Whether there is an answer to a request.
    pub fn knows(&self, request: &HostRequest) -> (r: bool)
        ensures
            r == (answer_from(self@, request@, 0) is Some),
    {
        let mut i: usize = 0;
        while i < self.answers.len()
            invariant
                i <= self.answers@.len(),
                answer_from(self@, request@, 0) == answer_from(self@, request@, i as int),
            decreases self.answers@.len() - i,
        {
            assert(self@[i as int] == (
                self.answers@[i as int].0@,
                outcome(self.answers@[i as int].1),
            ));
            if self.answers[i].0.same(request) {
                return true;
            }
            i += 1;
        }
        false
    }

    /// A copy of the table.
    pub fn duplicate(&self) -> (r: HostTable)
        ensures
            r@ == self@,
    {
        let mut out: Vec<(HostRequest, Result<Value, ExecutionError>)> = Vec::new();
        let mut i: usize = 0;
        while i < self.answers.len()
            invariant
                i <= self.answers@.len(),
                out@.len() == i,
                forall|j: int|
                    0 <= j < i ==> (#[trigger] out@[j]).0@ == self.answers@[j].0@ && outcome(
                        out@[j].1,
                    ) == outcome(self.answers@[j].1),
            decreases self.answers@.len() - i,
        {
            out.push((self.answers[i].0.clone(), clone_result(&self.answers[i].1)));
            i += 1;
        }
        let r = HostTable { answers: out };
        assert(r@ =~= self@);
        r
    }
}

proof fn lemma_answer_push(t: Seq<(Req, Outcome)>, a: (Req, Outcome), req: Req, from: int)
    requires
        0 <= from <= t.len(),
    ensures
        answer_from(t.push(a), req, from) == (match answer_from(t, req, from) {
            Some(o) => Some(o),
            None => if a.0 == req {
                Some(a.1)
            } else {
                None
            },
        }),
    decreases t.len() - from,
{
    if from < t.len() {
        if t[from].0 != req {
            lemma_answer_push(t, a, req, from + 1);
        }
    } else {
        assert(answer_from(t.push(a), req, from + 1) is None);
    }
}

/// An answer that is added serves its request, and no other answer changes.
pub proof fn law_answers_accumulate(t: Seq<(Req, Outcome)>, req: Req, o: Outcome, other: Req)
    ensures
        answer_from(t, req, 0) is None ==> ask(t.push((req, o)), req) == o,
        other != req || answer_from(t, req, 0) is Some ==> ask(t.push((req, o)), other) == ask(
            t,
            other,
        ),
{
    lemma_answer_push(t, (req, o), req, 0);
    lemma_answer_push(t, (req, o), other, 0);
}

/// An answer that is there stays, and so does that there is one to the request added.
pub proof fn law_answer_stays(t: Seq<(Req, Outcome)>, req: Req, o: Outcome, other: Req)
    ensures
        answer_from(t, other, 0) matches Some(a) ==> answer_from(t.push((req, o)), other, 0)
            == Some(a),
        answer_from(t.push((req, o)), req, 0) is Some,
{
    lemma_answer_push(t, (req, o), req, 0);
    lemma_answer_push(t, (req, o), other, 0);
}

} // verus!
