//! Laws of the operators of the language on numbers, texts and lists.

use crate::common::ast;
use crate::common::ast::{CallExpr, Expr, Operator};
use crate::common::types::timestamp;
use crate::context::Scope;
use crate::error;
use crate::error::{Fault, FloatOp, Outcome, Req};
use crate::objects::{Duration, Timestamp, Val};
use crate::ops;
use crate::ops::BinOp;
use crate::semantics;
use crate::semantics::{to_arg, CallKind};
use vstd::prelude::*;
use vstd::string::*;

verus! {

/// What an argument of a call comes to.
pub open spec fn arg(call: CallExpr, i: int, p: Seq<usize>, c: Scope) -> Outcome {
    semantics::eval_expr(call.args@[i].expr, to_arg(p, i), c)
}

/// What a call comes to.
pub open spec fn called(call: CallExpr, p: Seq<usize>, c: Scope) -> Outcome {
    semantics::eval_expr(Expr::Call(call), p, c)
}

/// A call of an operator on two operands.
pub open spec fn on_two(call: CallExpr, name: Seq<char>) -> bool {
    call.func_name@ == name && call.args@.len() == 2
}

/// A call of an operator on one operand.
pub open spec fn on_one(call: CallExpr, name: Seq<char>) -> bool {
    call.func_name@ == name && call.args@.len() == 1
}

/// The names of the operators.
pub proof fn lemma_operators()
    ensures
        ast::operator_of("_?_:_"@) == Some(Operator::Conditional),
        ast::operator_of("_&&_"@) == Some(Operator::LogicalAnd),
        ast::operator_of("_||_"@) == Some(Operator::LogicalOr),
        ast::operator_of("!_"@) == Some(Operator::LogicalNot),
        ast::operator_of("_==_"@) == Some(Operator::Equals),
        ast::operator_of("_!=_"@) == Some(Operator::NotEquals),
        ast::operator_of("_<_"@) == Some(Operator::Less),
        ast::operator_of("_<=_"@) == Some(Operator::LessEquals),
        ast::operator_of("_>_"@) == Some(Operator::Greater),
        ast::operator_of("_>=_"@) == Some(Operator::GreaterEquals),
        ast::operator_of("_+_"@) == Some(Operator::Add),
        ast::operator_of("_-_"@) == Some(Operator::Substract),
        ast::operator_of("_*_"@) == Some(Operator::Multiply),
        ast::operator_of("_/_"@) == Some(Operator::Divide),
        ast::operator_of("_%_"@) == Some(Operator::Modulo),
        ast::operator_of("-_"@) == Some(Operator::Negate),
        ast::operator_of("_[_]"@) == Some(Operator::Index),
        ast::operator_of("_[?_]"@) == Some(Operator::OptIndex),
        ast::operator_of("_?._"@) == Some(Operator::OptSelect),
        ast::operator_of("@in"@) == Some(Operator::In),
        ast::operator_of("@not_strictly_false"@) == Some(Operator::NotStrictlyFalse),
{
    reveal_strlit("_?_:_");
    reveal_strlit("_&&_");
    reveal_strlit("_||_");
    reveal_strlit("!_");
    reveal_strlit("_==_");
    reveal_strlit("_!=_");
    reveal_strlit("_<_");
    reveal_strlit("_<=_");
    reveal_strlit("_>_");
    reveal_strlit("_>=_");
    reveal_strlit("_+_");
    reveal_strlit("_-_");
    reveal_strlit("_*_");
    reveal_strlit("_/_");
    reveal_strlit("_%_");
    reveal_strlit("-_");
    reveal_strlit("_[_]");
    reveal_strlit("_[?_]");
    reveal_strlit("_?._");
    reveal_strlit("@in");
    reveal_strlit("@not_strictly_false");
    assert("_?_:_"@.len() == 5 && "_&&_"@.len() == 4 && "_||_"@.len() == 4 && "!_"@.len() == 2);
    assert("_==_"@.len() == 4 && "_!=_"@.len() == 4 && "_<_"@.len() == 3 && "_<=_"@.len() == 4);
    assert("_>_"@.len() == 3 && "_>=_"@.len() == 4 && "_+_"@.len() == 3 && "_-_"@.len() == 3);
    assert("_*_"@.len() == 3 && "_/_"@.len() == 3 && "_%_"@.len() == 3 && "-_"@.len() == 2);
    assert("_[_]"@.len() == 4 && "_[?_]"@.len() == 5 && "_?._"@.len() == 4 && "@in"@.len() == 3);
    assert("@not_strictly_false"@.len() == 19);
    assert("_&&_"@[1] == '&' && "_||_"@[1] == '|' && "_==_"@[1] == '=' && "_!=_"@[1] == '!');
    assert("_<=_"@[1] == '<' && "_>=_"@[1] == '>' && "_[_]"@[1] == '[' && "_?._"@[1] == '?');
    assert("_<_"@[1] == '<' && "_>_"@[1] == '>' && "_+_"@[1] == '+' && "_-_"@[1] == '-');
    assert("_*_"@[1] == '*' && "_/_"@[1] == '/' && "_%_"@[1] == '%' && "@in"@[1] == 'i');
    assert("!_"@[0] == '!' && "-_"@[0] == '-' && "_?_:_"@[1] == '?' && "_[?_]"@[1] == '[');
}

/// A call of an operator on two operands that both have values is the operator on the values.
proof fn lemma_binary(call: CallExpr, p: Seq<usize>, c: Scope, op: BinOp, a: Val, b: Val)
    requires
        call.args@.len() == 2,
        semantics::call_kind(ast::operator_of(call.func_name@), 2) == CallKind::Binary(op),
        arg(call, 0, p, c) == Ok::<Val, Fault>(a),
        arg(call, 1, p, c) == Ok::<Val, Fault>(b),
    ensures
        called(call, p, c) == ops::binary_result(op, a, b, c.host),
{
    lemma_operators();
}

/// Operands that both have values.
pub open spec fn operands(call: CallExpr, p: Seq<usize>, c: Scope, a: Val, b: Val) -> bool {
    &&& call.args@.len() == 2
    &&& arg(call, 0, p, c) == Ok::<Val, Fault>(a)
    &&& arg(call, 1, p, c) == Ok::<Val, Fault>(b)
}

/// An operand that has no value leaves an operator without one, with the fault of the first
/// such operand; all operators on two operands but `&&` and `||` are such.
pub proof fn law_faults_pass(call: CallExpr, p: Seq<usize>, c: Scope)
    requires
        call.args@.len() == 2,
        ({
            let n = call.func_name@;
            ||| n == "_+_"@ || n == "_-_"@ || n == "_*_"@ || n == "_/_"@ || n == "_%_"@
            ||| n == "_==_"@ || n == "_!=_"@ || n == "_<_"@ || n == "_<=_"@ || n == "_>_"@
            ||| n == "_>=_"@ || n == "@in"@ || n == "_[_]"@ || n == "_[?_]"@ || n == "_?._"@
        }),
    ensures
        arg(call, 0, p, c) matches Err(f) ==> called(call, p, c) == Err::<Val, Fault>(f),
        arg(call, 0, p, c) is Ok ==> (arg(call, 1, p, c) matches Err(f) ==> called(call, p, c)
            == Err::<Val, Fault>(f)),
{
    lemma_operators();
}

/// Sums, differences and products of signed integers are those of the integers, where they
/// fit in 64 bits; where they do not, there is an overflow.
pub proof fn law_int_arithmetic(call: CallExpr, p: Seq<usize>, c: Scope, x: i64, y: i64)
    requires
        operands(call, p, c, Val::Int(x), Val::Int(y)),
    ensures
        ({
            let o = called(call, p, c);
            let n = call.func_name@;
            let top = 0x7fff_ffff_ffff_ffffint;
            let low = -0x8000_0000_0000_0000int;
            &&& n == "_+_"@ ==> (if low <= x + y <= top {
                o matches Ok(Val::Int(z)) && z - y == x
            } else {
                o == Err::<Val, Fault>(Fault::Overflow("add"@, Val::Int(x), Val::Int(y)))
            })
            &&& n == "_-_"@ ==> (if low <= x - y <= top {
                o matches Ok(Val::Int(z)) && z + y == x
            } else {
                o == Err::<Val, Fault>(Fault::Overflow("sub"@, Val::Int(x), Val::Int(y)))
            })
            &&& n == "_*_"@ ==> (if low <= x * y <= top {
                o matches Ok(Val::Int(z)) && z == x * y
            } else {
                o == Err::<Val, Fault>(Fault::Overflow("mul"@, Val::Int(x), Val::Int(y)))
            })
        }),
{
    lemma_operators();
    let n = call.func_name@;
    if n == "_+_"@ {
        lemma_binary(call, p, c, BinOp::Add, Val::Int(x), Val::Int(y));
    }
    if n == "_-_"@ {
        lemma_binary(call, p, c, BinOp::Sub, Val::Int(x), Val::Int(y));
    }
    if n == "_*_"@ {
        lemma_binary(call, p, c, BinOp::Mul, Val::Int(x), Val::Int(y));
    }
}

/// Sums, differences and products of unsigned integers are those of the integers, where they
/// are not negative and fit in 64 bits; where not, there is an overflow.
pub proof fn law_uint_arithmetic(call: CallExpr, p: Seq<usize>, c: Scope, x: u64, y: u64)
    requires
        operands(call, p, c, Val::UInt(x), Val::UInt(y)),
    ensures
        ({
            let o = called(call, p, c);
            let n = call.func_name@;
            let top = 0xffff_ffff_ffff_ffffint;
            &&& n == "_+_"@ ==> (if x + y <= top {
                o matches Ok(Val::UInt(z)) && z - y == x
            } else {
                o == Err::<Val, Fault>(Fault::Overflow("add"@, Val::UInt(x), Val::UInt(y)))
            })
            &&& n == "_-_"@ ==> (if y <= x {
                o matches Ok(Val::UInt(z)) && z + y == x
            } else {
                o == Err::<Val, Fault>(Fault::Overflow("sub"@, Val::UInt(x), Val::UInt(y)))
            })
            &&& n == "_*_"@ ==> (if x * y <= top {
                o matches Ok(Val::UInt(z)) && z == x * y
            } else {
                o == Err::<Val, Fault>(Fault::Overflow("mul"@, Val::UInt(x), Val::UInt(y)))
            })
        }),
{
    lemma_operators();
    let n = call.func_name@;
    if n == "_+_"@ {
        lemma_binary(call, p, c, BinOp::Add, Val::UInt(x), Val::UInt(y));
    }
    if n == "_-_"@ {
        lemma_binary(call, p, c, BinOp::Sub, Val::UInt(x), Val::UInt(y));
    }
    if n == "_*_"@ {
        lemma_binary(call, p, c, BinOp::Mul, Val::UInt(x), Val::UInt(y));
    }
}

/// A quotient and a remainder of signed integers: together they give the dividend back, and the
/// remainder is smaller than the divisor and has no other sign than the dividend.
pub open spec fn divides(x: int, y: int, q: int, r: int) -> bool {
    &&& x == q * y + r
    &&& if y < 0 {
        y < r < -y
    } else {
        -y < r < y
    }
    &&& x >= 0 ==> r >= 0
    &&& x <= 0 ==> r <= 0
}

/// There is one quotient and one remainder.
pub proof fn law_divides_once(x: int, y: int, q: int, r: int, q2: int, r2: int)
    requires
        y != 0,
        divides(x, y, q, r),
        divides(x, y, q2, r2),
    ensures
        q == q2,
        r == r2,
{
    assert((q - q2) * y == r2 - r) by (nonlinear_arith)
        requires
            x == q * y + r,
            x == q2 * y + r2,
    ;
    if q != q2 {
        assert((q - q2) * y >= y || (q - q2) * y <= -y) by (nonlinear_arith)
            requires
                q != q2,
                y != 0,
        ;
        assert((q - q2) * y >= -y || (q - q2) * y <= y) by (nonlinear_arith)
            requires
                q != q2,
                y != 0,
        ;
        assert(if y < 0 { (q - q2) * y >= -y || (q - q2) * y <= y } else { (q - q2) * y >= y || (q
            - q2) * y <= -y });
    }
}

pub proof fn lemma_truncating(x: i64, y: i64)
    requires
        y != 0,
        !(x == i64::MIN && y == -1),
    ensures
        x.checked_div(y) is Some,
        x.checked_rem(y) is Some,
        divides(x as int, y as int, x.checked_div(y)->0 as int, x.checked_rem(y)->0 as int),
{
    let q = x.checked_div(y)->0;
    let r = x.checked_rem(y)->0;
    let ax = if x < 0 { -(x as int) } else { x as int };
    let ay = if y < 0 { -(y as int) } else { y as int };
    let k = ax / ay;
    assert(ax == k * ay + ax % ay && 0 <= ax % ay < ay && 0 <= k <= ax) by (nonlinear_arith)
        requires
            ay > 0,
            ax >= 0,
            k == ax / ay,
    ;
    if ay >= 2 {
        assert(2 * k <= ax) by (nonlinear_arith)
            requires
                ay >= 2,
                k >= 0,
                ax == k * ay + ax % ay,
                ax % ay >= 0,
        ;
    }
    assert(-1 * (x as int) == -(x as int) && (x as int) * -1 == -(x as int));
    assert((y as int) * -1 == -(y as int));
    assert(k * -1 == -k);
    assert(q == k || q == -k);
    assert((-k) * ay == -(k * ay) && k * (-ay) == -(k * ay) && (-k) * (-ay) == k * ay)
        by (nonlinear_arith);
    if x == 0 {
        assert(k == 0) by (nonlinear_arith)
            requires
                ax == 0,
                ay > 0,
                k == ax / ay,
        ;
    }
}

/// The quotient of signed integers is cut off toward zero, and the remainder goes with it. A
/// divisor that is zero, and a quotient that does not fit, are refused.
pub proof fn law_int_division(
    div: CallExpr,
    rem: CallExpr,
    p: Seq<usize>,
    c: Scope,
    x: i64,
    y: i64,
)
    requires
        operands(div, p, c, Val::Int(x), Val::Int(y)),
        operands(rem, p, c, Val::Int(x), Val::Int(y)),
        div.func_name@ == "_/_"@,
        rem.func_name@ == "_%_"@,
    ensures
        ({
            let q = called(div, p, c);
            let r = called(rem, p, c);
            let a = Val::Int(x);
            let b = Val::Int(y);
            if y == 0 {
                &&& q == Err::<Val, Fault>(Fault::DivisionByZero(a))
                &&& r == Err::<Val, Fault>(Fault::RemainderByZero(a))
            } else if x == -0x8000_0000_0000_0000 && y == -1 {
                &&& q == Err::<Val, Fault>(Fault::Overflow("div"@, a, b))
                &&& r == Err::<Val, Fault>(Fault::Overflow("rem"@, a, b))
            } else {
                &&& q matches Ok(Val::Int(u))
                &&& r matches Ok(Val::Int(v))
                &&& divides(x as int, y as int, u as int, v as int)
            }
        }),
{
    lemma_operators();
    lemma_binary(div, p, c, BinOp::Div, Val::Int(x), Val::Int(y));
    lemma_binary(rem, p, c, BinOp::Rem, Val::Int(x), Val::Int(y));
    if y != 0 && !(x == i64::MIN && y == -1) {
        lemma_truncating(x, y);
    }
}

/// The quotient and the remainder of unsigned integers.
pub proof fn law_uint_division(
    div: CallExpr,
    rem: CallExpr,
    p: Seq<usize>,
    c: Scope,
    x: u64,
    y: u64,
)
    requires
        operands(div, p, c, Val::UInt(x), Val::UInt(y)),
        operands(rem, p, c, Val::UInt(x), Val::UInt(y)),
        div.func_name@ == "_/_"@,
        rem.func_name@ == "_%_"@,
    ensures
        ({
            let q = called(div, p, c);
            let r = called(rem, p, c);
            if y == 0 {
                &&& q == Err::<Val, Fault>(Fault::DivisionByZero(Val::UInt(x)))
                &&& r == Err::<Val, Fault>(Fault::RemainderByZero(Val::UInt(x)))
            } else {
                &&& q matches Ok(Val::UInt(u))
                &&& r matches Ok(Val::UInt(v))
                &&& divides(x as int, y as int, u as int, v as int)
            }
        }),
{
    lemma_operators();
    lemma_binary(div, p, c, BinOp::Div, Val::UInt(x), Val::UInt(y));
    lemma_binary(rem, p, c, BinOp::Rem, Val::UInt(x), Val::UInt(y));
    if y != 0 {
        let a = x as int;
        let b = y as int;
        assert(a == (a / b) * b + a % b && 0 <= a % b < b) by (nonlinear_arith)
            requires
                b > 0,
        ;
    }
}

/// Arithmetic on doubles is what the host says it is: each operator asks for its own
/// operation on its operands, in their order.
pub proof fn law_double_arithmetic(call: CallExpr, p: Seq<usize>, c: Scope, x: u64, y: u64)
    requires
        operands(call, p, c, Val::Float(x), Val::Float(y)),
    ensures
        ({
            let o = called(call, p, c);
            let n = call.func_name@;
            &&& n == "_+_"@ ==> o == error::ask(c.host, Req::Arithmetic(FloatOp::Add, x, y))
            &&& n == "_-_"@ ==> o == error::ask(c.host, Req::Arithmetic(FloatOp::Sub, x, y))
            &&& n == "_*_"@ ==> o == error::ask(c.host, Req::Arithmetic(FloatOp::Mul, x, y))
            &&& n == "_/_"@ ==> o == error::ask(c.host, Req::Arithmetic(FloatOp::Div, x, y))
            &&& n == "_%_"@ ==> o is Err
        }),
{
    lemma_operators();
    let n = call.func_name@;
    if n == "_+_"@ {
        lemma_binary(call, p, c, BinOp::Add, Val::Float(x), Val::Float(y));
    }
    if n == "_-_"@ {
        lemma_binary(call, p, c, BinOp::Sub, Val::Float(x), Val::Float(y));
    }
    if n == "_*_"@ {
        lemma_binary(call, p, c, BinOp::Mul, Val::Float(x), Val::Float(y));
    }
    if n == "_/_"@ {
        lemma_binary(call, p, c, BinOp::Div, Val::Float(x), Val::Float(y));
    }
    if n == "_%_"@ {
        lemma_binary(call, p, c, BinOp::Rem, Val::Float(x), Val::Float(y));
    }
}

proof fn lemma_joined<A>(s: Seq<A>, t: Seq<A>)
    ensures
        (s + t).len() == s.len() + t.len(),
        (s + t).subrange(0, s.len() as int) == s,
        (s + t).subrange(s.len() as int, (s + t).len() as int) == t,
{
    assert((s + t).subrange(0, s.len() as int) =~= s);
    assert((s + t).subrange(s.len() as int, (s + t).len() as int) =~= t);
}

/// The sum of two texts is the second behind the first, and so is the sum of two lists.
pub proof fn law_joining(
    call: CallExpr,
    p: Seq<usize>,
    c: Scope,
    s: Seq<char>,
    t: Seq<char>,
    x: Seq<Val>,
    y: Seq<Val>,
)
    requires
        on_two(call, "_+_"@),
    ensures
        operands(call, p, c, Val::String(s), Val::String(t)) ==> (called(call, p, c) matches Ok(
            Val::String(r),
        ) && r.len() == s.len() + t.len() && r.subrange(0, s.len() as int) == s && r.subrange(
            s.len() as int,
            r.len() as int,
        ) == t),
        operands(call, p, c, Val::List(x), Val::List(y)) ==> (called(call, p, c) matches Ok(
            Val::List(r),
        ) && r.len() == x.len() + y.len() && r.subrange(0, x.len() as int) == x && r.subrange(
            x.len() as int,
            r.len() as int,
        ) == y),
{
    lemma_operators();
    if operands(call, p, c, Val::String(s), Val::String(t)) {
        lemma_binary(call, p, c, BinOp::Add, Val::String(s), Val::String(t));
        lemma_joined(s, t);
        assert(called(call, p, c) == Ok::<Val, Fault>(Val::String(s + t)));
    }
    if operands(call, p, c, Val::List(x), Val::List(y)) {
        lemma_binary(call, p, c, BinOp::Add, Val::List(x), Val::List(y));
        lemma_joined(x, y);
        assert(called(call, p, c) == Ok::<Val, Fault>(Val::List(x + y)));
    }
}

/// Numbers of different types are not added, subtracted, multiplied or divided; nor are values
/// of other types, but for texts, lists, instants and durations.
pub proof fn law_no_arithmetic(call: CallExpr, p: Seq<usize>, c: Scope, a: Val, b: Val)
    requires
        operands(call, p, c, a, b),
        ({
            let n = call.func_name@;
            n == "_+_"@ || n == "_-_"@ || n == "_*_"@ || n == "_/_"@ || n == "_%_"@
        }),
        !(a is Int && b is Int || a is UInt && b is UInt || a is Float && b is Float),
        !(a is String && b is String || a is List && b is List),
        !((a is Timestamp || a is Duration) && (b is Timestamp || b is Duration)),
    ensures
        called(call, p, c) matches Err(Fault::UnsupportedBinaryOperator(_, l, r)) && l == a && r
            == b,
{
    lemma_operators();
    let n = call.func_name@;
    if n == "_+_"@ {
        lemma_binary(call, p, c, BinOp::Add, a, b);
    } else if n == "_-_"@ {
        lemma_binary(call, p, c, BinOp::Sub, a, b);
    } else if n == "_*_"@ {
        lemma_binary(call, p, c, BinOp::Mul, a, b);
    } else if n == "_/_"@ {
        lemma_binary(call, p, c, BinOp::Div, a, b);
    } else {
        lemma_binary(call, p, c, BinOp::Rem, a, b);
    }
}

/// Durations are added and subtracted as lengths, up to `i64::MAX` milliseconds either way.
pub proof fn law_durations(call: CallExpr, p: Seq<usize>, c: Scope, x: Duration, y: Duration)
    requires
        operands(call, p, c, Val::Duration(x), Val::Duration(y)),
    ensures
        ({
            let o = called(call, p, c);
            let most = 0x7fff_ffff_ffff_ffff * 1_000_000;
            &&& call.func_name@ == "_+_"@ ==> (if -most <= x.nanos + y.nanos <= most {
                o matches Ok(Val::Duration(d)) && d.nanos - y.nanos == x.nanos
            } else {
                o is Err
            })
            &&& call.func_name@ == "_-_"@ ==> (if -most <= x.nanos - y.nanos <= most {
                o matches Ok(Val::Duration(d)) && d.nanos + y.nanos == x.nanos
            } else {
                o is Err
            })
        }),
{
    lemma_operators();
    if call.func_name@ == "_+_"@ {
        lemma_binary(call, p, c, BinOp::Add, Val::Duration(x), Val::Duration(y));
    }
    if call.func_name@ == "_-_"@ {
        lemma_binary(call, p, c, BinOp::Sub, Val::Duration(x), Val::Duration(y));
    }
}

/// A duration moves an instant by its length: a sum, in either order, later and a difference
/// earlier. The place stays. What leaves the years 1 to 9999 overflows.
pub proof fn law_instants_move(call: CallExpr, p: Seq<usize>, c: Scope, t: Timestamp, d: Duration)
    requires
        timestamp::ordinary(t),
        !t.leap,
        -(0x7fff_ffff_ffff_ffff * 1_000_000) <= d.nanos <= 0x7fff_ffff_ffff_ffff * 1_000_000,
    ensures
        ({
            let o = called(call, p, c);
            let low = -62_135_596_800_000_000_000int;
            let top = 253_402_300_799_999_999_999int;
            &&& on_two(call, "_+_"@) && (operands(call, p, c, Val::Timestamp(t), Val::Duration(d))
                || operands(call, p, c, Val::Duration(d), Val::Timestamp(t))) ==> (if low <= t.nanos
                + d.nanos <= top {
                o matches Ok(Val::Timestamp(u)) && u.nanos - t.nanos == d.nanos && u.offset
                    == t.offset && !u.leap
            } else {
                o matches Err(Fault::Overflow(_, _, _))
            })
            &&& on_two(call, "_-_"@) && operands(
                call,
                p,
                c,
                Val::Timestamp(t),
                Val::Duration(d),
            ) ==> (if low <= t.nanos - d.nanos <= top {
                o matches Ok(Val::Timestamp(u)) && t.nanos - u.nanos == d.nanos && u.offset
                    == t.offset && !u.leap
            } else {
                o matches Err(Fault::Overflow(_, _, _))
            })
        }),
{
    lemma_operators();
    let a = Val::Timestamp(t);
    let b = Val::Duration(d);
    if on_two(call, "_+_"@) {
        if operands(call, p, c, a, b) {
            lemma_binary(call, p, c, BinOp::Add, a, b);
        }
        if operands(call, p, c, b, a) {
            lemma_binary(call, p, c, BinOp::Add, b, a);
        }
    }
    if on_two(call, "_-_"@) && operands(call, p, c, a, b) {
        lemma_binary(call, p, c, BinOp::Sub, a, b);
    }
}

/// The difference of two instants is the time from the second to the first, wherever they are
/// told.
pub proof fn law_instants_apart(
    call: CallExpr,
    p: Seq<usize>,
    c: Scope,
    t: Timestamp,
    u: Timestamp,
)
    requires
        timestamp::ordinary(t),
        timestamp::ordinary(u),
        !t.leap,
        !u.leap,
        on_two(call, "_-_"@),
        operands(call, p, c, Val::Timestamp(t), Val::Timestamp(u)),
    ensures
        called(call, p, c) matches Ok(Val::Duration(d)) && u.nanos + d.nanos == t.nanos,
{
    lemma_operators();
    lemma_binary(call, p, c, BinOp::Sub, Val::Timestamp(t), Val::Timestamp(u));
}

/// From inside a leap second, a step that stays in it stays in it; one that goes on comes out
/// at what follows it, and one that goes back comes out before it, a second's length nearer.
pub proof fn law_leap_seconds_move(t: Timestamp, by: int)
    requires
        timestamp::ordinary(t),
        t.leap,
        -62_135_596_000_000_000_000 <= t.nanos + by <= 253_402_300_000_000_000_000,
        -(0x7fff_ffff_ffff_ffff * 1_000_000) <= by <= 0x7fff_ffff_ffff_ffff * 1_000_000,
    ensures
        ({
            let inside = t.nanos as int % 1_000_000_000;
            let u = timestamp::moved(t, by);
            &&& u is Some
            &&& u->0.offset == t.offset
            &&& u->0.leap == (0 <= inside + by < 1_000_000_000)
            &&& u->0.nanos == t.nanos + by + (if inside + by < 0 {
                1_000_000_000int
            } else {
                0
            })
        }),
{
}

/// `-v` is the opposite of an integer, which the smallest one does not have: it is its own.
/// Of a double it is the one with the other sign. Nothing else has an opposite.
pub proof fn law_negation(call: CallExpr, p: Seq<usize>, c: Scope, v: Val)
    requires
        on_one(call, "-_"@),
        arg(call, 0, p, c) == Ok::<Val, Fault>(v),
    ensures
        ({
            let o = called(call, p, c);
            match v {
                Val::Int(x) => o matches Ok(Val::Int(z)) && (z + x == 0 || z == x && x
                    == -0x8000_0000_0000_0000),
                Val::Float(x) => o matches Ok(Val::Float(z)) && (if x < 0x8000_0000_0000_0000 {
                    z == x + 0x8000_0000_0000_0000
                } else {
                    x == z + 0x8000_0000_0000_0000
                }),
                _ => o == Err::<Val, Fault>(Fault::NoSuchOverload),
            }
        }),
{
    lemma_operators();
}

/// `!v` is the other boolean; nothing else has one.
pub proof fn law_not(call: CallExpr, p: Seq<usize>, c: Scope, v: Val)
    requires
        on_one(call, "!_"@),
        arg(call, 0, p, c) == Ok::<Val, Fault>(v),
    ensures
        ({
            let o = called(call, p, c);
            match v {
                Val::Bool(b) => o matches Ok(Val::Bool(z)) && z != b,
                _ => o == Err::<Val, Fault>(Fault::UnsupportedUnaryOperator("!"@, v)),
            }
        }),
{
    lemma_operators();
}

/// A loop goes on after anything but `false` and `null`.
pub proof fn law_not_strictly_false(call: CallExpr, p: Seq<usize>, c: Scope, v: Val)
    requires
        on_one(call, "@not_strictly_false"@),
        arg(call, 0, p, c) == Ok::<Val, Fault>(v),
    ensures
        called(call, p, c) matches Ok(Val::Bool(z)) && (z <==> v != Val::Bool(false) && v
            != Val::Null),
{
    lemma_operators();
}

/// A fault of the operand is the fault of an operator on one.
pub proof fn law_fault_passes(call: CallExpr, p: Seq<usize>, c: Scope, f: Fault)
    requires
        on_one(call, "!_"@) || on_one(call, "-_"@) || on_one(call, "@not_strictly_false"@),
        arg(call, 0, p, c) == Err::<Val, Fault>(f),
    ensures
        called(call, p, c) == Err::<Val, Fault>(f),
{
    lemma_operators();
}

/// `b ? x : y` is `x` where `b` is true and `y` where it is false, whatever becomes of the other;
/// anything else decides nothing.
pub proof fn law_conditional(call: CallExpr, p: Seq<usize>, c: Scope)
    requires
        call.func_name@ == "_?_:_"@,
        call.args@.len() == 3,
    ensures
        ({
            let o = called(call, p, c);
            match arg(call, 0, p, c) {
                Ok(Val::Bool(true)) => o == arg(call, 1, p, c),
                Ok(Val::Bool(false)) => o == arg(call, 2, p, c),
                Ok(_) => o == Err::<Val, Fault>(Fault::NoSuchOverload),
                Err(f) => o == Err::<Val, Fault>(f),
            }
        }),
{
    lemma_operators();
}

/// `a && b` is false exactly where one of them is, and true exactly where both are; `a || b`
/// is true exactly where one of them is, and false exactly where both are. Elsewhere there is
/// no value: the fault is that of `b` where `a` was evaluated without deciding and `b` is no
/// boolean or has a fault, else that of `a`.
pub proof fn law_logic(call: CallExpr, p: Seq<usize>, c: Scope)
    requires
        on_two(call, "_&&_"@) || on_two(call, "_||_"@),
    ensures
        ({
            let a = arg(call, 0, p, c);
            let b = arg(call, 1, p, c);
            let o = called(call, p, c);
            let decides = call.func_name@ == "_||_"@;
            let yes = Ok::<Val, Fault>(Val::Bool(decides));
            let no = Ok::<Val, Fault>(Val::Bool(!decides));
            &&& o == yes <==> a == yes || b == yes
            &&& o == no <==> a == no && b == no
            &&& o is Ok ==> o == yes || o == no
            &&& a == no && b is Err ==> o == b
            &&& a is Err && b == no ==> o == a
            &&& a == no && b is Ok && b != yes && b != no ==> o == Err::<Val, Fault>(
                Fault::NoSuchOverload,
            )
            &&& a is Ok && a != yes && a != no && b == no ==> o == Err::<Val, Fault>(
                Fault::NoSuchOverload,
            )
            &&& a is Err && b is Err && !(a->Err_0 is HostNeeded) ==> o == b
            &&& a is Err && a->Err_0 is HostNeeded && b != yes ==> o == a
        }),
{
    lemma_operators();
    reveal_strlit("_||_");
    reveal_strlit("_&&_");
    assert("_||_"@[1] == '|' && "_&&_"@[1] == '&');
}

} // verus!
