//! Laws of what an evaluation reads: the variables that its expression refers to, and the answers
//! that its calls ask for.

use crate::common::ast::{CallExpr, ComprehensionExpr, EntryExpr, Expr, IdedEntryExpr, IdedExpr};
use crate::context;
use crate::context::Scope;
use crate::error;
use crate::error::{Outcome, Req, Site};
use crate::fast;
use crate::objects::Val;
use crate::semantics;
use crate::vm::filter_tree;
use crate::vm::filter_tree::FilterNode;
use vstd::prelude::*;

verus! {

/// Two scopes differ at most in variables that are not among the names and that the parser did
/// not make up.
#[verifier::opaque]
pub open spec fn agree(c: Scope, d: Scope, names: Seq<Seq<char>>) -> bool {
    &&& c.env == d.env
    &&& c.functions == d.functions
    &&& c.host == d.host
    &&& c.rounds == d.rounds
    &&& forall|n: Seq<char>|
        names.contains(n) || (n.len() > 0 && n[0] == '@') ==> #[trigger] context::variable(c, n)
            == context::variable(d, n)
}

/// The second names hold the first.
pub open spec fn holds_names(a: Seq<Seq<char>>, b: Seq<Seq<char>>) -> bool {
    forall|n: Seq<char>| #[trigger] a.contains(n) ==> b.contains(n)
}

proof fn lemma_grows(e: Expr, names: Seq<Seq<char>>)
    ensures
        holds_names(names, fast::references(e, names)),
    decreases e, 0nat,
{
    match e {
        Expr::Ident(n) => {
            assert forall|m: Seq<char>| #[trigger] names.contains(m) implies names.push(
                n@,
            ).contains(m) by {
                let k = choose|k: int| 0 <= k < names.len() && names[k] == m;
                assert(names.push(n@)[k] == m);
            }
        },
        Expr::Call(c) => {
            let from = match c.target {
                Some(t) => fast::references(t.expr, names),
                None => names,
            };
            if let Some(t) = c.target {
                lemma_grows(t.expr, names);
            }
            lemma_all_grow(c.args@, from);
        },
        Expr::Select(s) => {
            lemma_grows(s.operand.expr, names);
        },
        Expr::List(l) => {
            lemma_all_grow(l.elements@, names);
        },
        Expr::Dict(m) => {
            lemma_entries_grow(m.entries@, names);
        },
        Expr::Struct(s) => {
            lemma_entries_grow(s.entries@, names);
        },
        Expr::Comprehension(c) => {
            let a = fast::references(c.iter_range.expr, names);
            let b = fast::references(c.accu_init.expr, a);
            let d = fast::references(c.loop_cond.expr, b);
            let f = fast::references(c.loop_step.expr, d);
            lemma_grows(c.iter_range.expr, names);
            lemma_grows(c.accu_init.expr, a);
            lemma_grows(c.loop_cond.expr, b);
            lemma_grows(c.loop_step.expr, d);
            lemma_grows(c.result.expr, f);
        },
        _ => {},
    }
}

proof fn lemma_all_grow(s: Seq<IdedExpr>, names: Seq<Seq<char>>)
    ensures
        holds_names(names, fast::all_references(s, names)),
    decreases s, 1nat,
{
    if s.len() > 0 {
        lemma_all_grow(s.drop_last(), names);
        lemma_grows(s.last().expr, fast::all_references(s.drop_last(), names));
    }
}

proof fn lemma_entries_grow(s: Seq<IdedEntryExpr>, names: Seq<Seq<char>>)
    ensures
        holds_names(names, fast::entry_references(s, names)),
    decreases s, 1nat,
{
    if s.len() > 0 {
        let before = fast::entry_references(s.drop_last(), names);
        lemma_entries_grow(s.drop_last(), names);
        match s.last().expr {
            EntryExpr::MapEntry(m) => {
                lemma_grows(m.key.expr, before);
                lemma_grows(m.value.expr, fast::references(m.key.expr, before));
            },
            EntryExpr::StructField(f) => {
                lemma_grows(f.value.expr, before);
            },
        }
    }
}

proof fn lemma_fewer(c: Scope, d: Scope, a: Seq<Seq<char>>, b: Seq<Seq<char>>)
    requires
        agree(c, d, b),
        holds_names(a, b),
    ensures
        agree(c, d, a),
{
    reveal(agree);
}

/// What an expression comes to depends on no variable but those that it refers to and those that
/// the parser makes up.
pub proof fn law_references(e: Expr, p: Seq<usize>, c: Scope, d: Scope, names: Seq<Seq<char>>)
    requires
        agree(c, d, fast::references(e, names)),
    ensures
        semantics::eval_expr(e, p, c) == semantics::eval_expr(e, p, d),
    decreases e, 0nat,
{
    reveal(agree);
    match e {
        Expr::Ident(n) => {
            assert(names.push(n@)[names.len() as int] == n@);
            assert(context::variable(c, n@) == context::variable(d, n@));
        },
        Expr::Select(s) => {
            law_references(s.operand.expr, semantics::to_target(p), c, d, names);
        },
        Expr::Call(call) => {
            lemma_call(call, p, c, d, names);
        },
        Expr::List(l) => {
            lemma_elements(l.elements@, p, l.optional_indices@, c, d, names);
        },
        Expr::Dict(m) => {
            lemma_entries(m.entries@, p, c, d, names);
        },
        Expr::Struct(s) => {
            lemma_entries(s.entries@, p, c, d, names);
        },
        Expr::Comprehension(comp) => {
            lemma_loop(*comp, p, c, d, names);
        },
        _ => {},
    }
}

proof fn lemma_call(call: CallExpr, p: Seq<usize>, c: Scope, d: Scope, names: Seq<Seq<char>>)
    requires
        agree(c, d, fast::references(Expr::Call(call), names)),
    ensures
        semantics::eval_expr(Expr::Call(call), p, c) == semantics::eval_expr(
            Expr::Call(call),
            p,
            d,
        ),
    decreases call, 2nat,
{
    reveal(agree);
    let from = match call.target {
        Some(t) => fast::references(t.expr, names),
        None => names,
    };
    lemma_all_grow(call.args@, from);
    if let Some(t) = call.target {
        lemma_fewer(c, d, from, fast::references(Expr::Call(call), names));
        law_references(t.expr, semantics::to_target(p), c, d, names);
    }
    lemma_args(call.args@, p, c, d, from);
}

proof fn lemma_bound(c: Scope, d: Scope, names: Seq<Seq<char>>, name: Seq<char>, v: Val)
    requires
        agree(c, d, names),
    ensures
        agree(context::bind(c, name, v), context::bind(d, name, v), names),
{
    reveal(agree);
    let x = context::bind(c, name, v);
    let y = context::bind(d, name, v);
    assert forall|n: Seq<char>|
        names.contains(n) || (n.len() > 0 && n[0] == '@') implies #[trigger] context::variable(x, n)
        == context::variable(y, n) by {
        assert(context::variable(c, n) == context::variable(d, n));
    }
}

proof fn lemma_loop_names(comp: ComprehensionExpr, c: Scope, d: Scope, names: Seq<Seq<char>>)
    requires
        agree(c, d, fast::references(Expr::Comprehension(Box::new(comp)), names)),
    ensures
        ({
            let a = fast::references(comp.iter_range.expr, names);
            let b = fast::references(comp.accu_init.expr, a);
            let s = fast::references(comp.loop_cond.expr, b);
            let f = fast::references(comp.loop_step.expr, s);
            let last = fast::references(comp.result.expr, f);
            agree(c, d, a) && agree(c, d, b) && agree(c, d, f) && agree(c, d, last)
        }),
{
    let a = fast::references(comp.iter_range.expr, names);
    let b = fast::references(comp.accu_init.expr, a);
    let s = fast::references(comp.loop_cond.expr, b);
    let f = fast::references(comp.loop_step.expr, s);
    let last = fast::references(comp.result.expr, f);
    lemma_grows(comp.accu_init.expr, a);
    lemma_grows(comp.loop_cond.expr, b);
    lemma_grows(comp.loop_step.expr, s);
    lemma_grows(comp.result.expr, f);
    lemma_fewer(c, d, f, last);
    lemma_fewer(c, d, s, f);
    lemma_fewer(c, d, b, s);
    lemma_fewer(c, d, a, b);
}

proof fn lemma_loop(
    comp: ComprehensionExpr,
    p: Seq<usize>,
    c: Scope,
    d: Scope,
    names: Seq<Seq<char>>,
)
    requires
        agree(c, d, fast::references(Expr::Comprehension(Box::new(comp)), names)),
    ensures
        semantics::eval_expr(Expr::Comprehension(Box::new(comp)), p, c) == semantics::eval_expr(
            Expr::Comprehension(Box::new(comp)),
            p,
            d,
        ),
    decreases comp, 2nat,
{
    let a = fast::references(comp.iter_range.expr, names);
    let b = fast::references(comp.accu_init.expr, a);
    let s = fast::references(comp.loop_cond.expr, b);
    let f = fast::references(comp.loop_step.expr, s);
    let last = fast::references(comp.result.expr, f);
    lemma_loop_names(comp, c, d, names);
    law_references(comp.iter_range.expr, p.push(0), c, d, names);
    law_references(comp.accu_init.expr, p.push(1), c, d, a);
    if let Ok(init) = semantics::eval_expr(comp.accu_init.expr, p.push(1), c) {
        if let Ok(range) = semantics::eval_expr(comp.iter_range.expr, p.push(0), c) {
            if let Some(items) = semantics::loop_items(range) {
                let is_map = range is Dict;
                lemma_rounds(comp, p, c, d, items, is_map, 0, init, b);
                let done = semantics::eval_loop(comp, p, c, items, is_map, 0, init);
                if let Ok(accu) = done {
                    lemma_bound(c, d, last, comp.accu_var@, accu);
                    law_references(
                        comp.result.expr,
                        p.push(4),
                        context::bind(c, comp.accu_var@, accu),
                        context::bind(d, comp.accu_var@, accu),
                        f,
                    );
                }
            }
        }
    }
}

proof fn lemma_args(
    s: Seq<IdedExpr>,
    p: Seq<usize>,
    c: Scope,
    d: Scope,
    names: Seq<Seq<char>>,
)
    requires
        agree(c, d, fast::all_references(s, names)),
    ensures
        semantics::eval_args(s, p, c) == semantics::eval_args(s, p, d),
        forall|i: int|
            #![trigger s[i]]
            0 <= i < s.len() ==> semantics::eval_expr(s[i].expr, semantics::to_arg(p, i), c)
                == semantics::eval_expr(s[i].expr, semantics::to_arg(p, i), d),
    decreases s, 1nat,
{
    if s.len() > 0 {
        let before = fast::all_references(s.drop_last(), names);
        lemma_grows(s.last().expr, before);
        lemma_fewer(c, d, before, fast::all_references(s, names));
        lemma_args(s.drop_last(), p, c, d, names);
        law_references(s.last().expr, semantics::to_arg(p, s.len() - 1), c, d, before);
        assert forall|i: int| #![trigger s[i]] 0 <= i < s.len() implies semantics::eval_expr(
            s[i].expr,
            semantics::to_arg(p, i),
            c,
        ) == semantics::eval_expr(s[i].expr, semantics::to_arg(p, i), d) by {
            if i < s.len() - 1 {
                assert(s.drop_last()[i] == s[i]);
            }
        }
    }
}

proof fn lemma_elements(
    s: Seq<IdedExpr>,
    p: Seq<usize>,
    optional: Seq<usize>,
    c: Scope,
    d: Scope,
    names: Seq<Seq<char>>,
)
    requires
        agree(c, d, fast::all_references(s, names)),
    ensures
        semantics::eval_elements(s, p, optional, c) == semantics::eval_elements(s, p, optional, d),
    decreases s, 1nat,
{
    if s.len() > 0 {
        let before = fast::all_references(s.drop_last(), names);
        lemma_grows(s.last().expr, before);
        lemma_fewer(c, d, before, fast::all_references(s, names));
        lemma_elements(s.drop_last(), p, optional, c, d, names);
        law_references(s.last().expr, semantics::to_arg(p, s.len() - 1), c, d, before);
    }
}

proof fn lemma_entries(
    s: Seq<IdedEntryExpr>,
    p: Seq<usize>,
    c: Scope,
    d: Scope,
    names: Seq<Seq<char>>,
)
    requires
        agree(c, d, fast::entry_references(s, names)),
    ensures
        semantics::eval_entries(s, p, c) == semantics::eval_entries(s, p, d),
        semantics::eval_fields(s, p, c) == semantics::eval_fields(s, p, d),
    decreases s, 1nat,
{
    if s.len() > 0 {
        let before = fast::entry_references(s.drop_last(), names);
        let all = fast::entry_references(s, names);
        let q = semantics::to_arg(p, s.len() - 1);
        match s.last().expr {
            EntryExpr::MapEntry(m) => {
                let with_key = fast::references(m.key.expr, before);
                lemma_grows(m.key.expr, before);
                lemma_grows(m.value.expr, with_key);
                lemma_fewer(c, d, with_key, all);
                lemma_fewer(c, d, before, with_key);
                law_references(m.key.expr, q.push(0), c, d, before);
                law_references(m.value.expr, q.push(1), c, d, with_key);
            },
            EntryExpr::StructField(f) => {
                lemma_grows(f.value.expr, before);
                lemma_fewer(c, d, before, all);
                law_references(f.value.expr, q, c, d, before);
            },
        }
        lemma_entries(s.drop_last(), p, c, d, names);
    }
}

proof fn lemma_rounds(
    comp: ComprehensionExpr,
    p: Seq<usize>,
    c: Scope,
    d: Scope,
    items: Seq<Val>,
    is_map: bool,
    i: int,
    accu: Val,
    names: Seq<Seq<char>>,
)
    requires
        agree(
            c,
            d,
            fast::references(
                comp.loop_step.expr,
                fast::references(comp.loop_cond.expr, names),
            ),
        ),
    ensures
        semantics::eval_loop(comp, p, c, items, is_map, i, accu) == semantics::eval_loop(
            comp,
            p,
            d,
            items,
            is_map,
            i,
            accu,
        ),
    decreases comp, 0nat, items.len() - i,
{
    if 0 <= i < items.len() {
        let b = fast::references(comp.loop_cond.expr, names);
        let all = fast::references(comp.loop_step.expr, b);
        lemma_grows(comp.loop_step.expr, b);
        let x = context::bind(
            semantics::bind_item(
                context::in_round(c, i as usize),
                comp.iter_var@,
                semantics::opt_name(comp.iter_var2),
                is_map,
                items[i],
            ),
            comp.accu_var@,
            accu,
        );
        let y = context::bind(
            semantics::bind_item(
                context::in_round(d, i as usize),
                comp.iter_var@,
                semantics::opt_name(comp.iter_var2),
                is_map,
                items[i],
            ),
            comp.accu_var@,
            accu,
        );
        assert(agree(x, y, all)) by {
            reveal(agree);
            assert forall|n: Seq<char>|
                all.contains(n) || (n.len() > 0 && n[0] == '@') implies #[trigger] context::variable(
                x,
                n,
            ) == context::variable(y, n) by {
                assert(context::variable(c, n) == context::variable(d, n));
            }
        }
        lemma_fewer(x, y, b, all);
        law_references(comp.loop_cond.expr, p.push(2), x, y, names);
        law_references(comp.loop_step.expr, p.push(3), x, y, b);
        if let Ok(next) = semantics::eval_expr(comp.loop_step.expr, p.push(3), x) {
            lemma_rounds(comp, p, c, d, items, is_map, i + 1, next, names);
        }
    }
}

/// The names that an expression refers to are those of its variables, and each variable of an
/// expression is among them, unless the parser made it up.
pub proof fn law_reference_names(n: String, names: Seq<Seq<char>>, m: Seq<char>)
    ensures
        ({
            let r = fast::references(Expr::Ident(n), names);
            r.contains(m) <==> names.contains(m) || (m == n@ && !(m.len() > 0 && m[0] == '@'))
        }),
{
    let pushed = names.push(n@);
    assert(pushed[names.len() as int] == n@);
    if names.contains(m) {
        let k = choose|k: int| 0 <= k < names.len() && names[k] == m;
        assert(pushed[k] == m);
    }
}

/// A filter asks for the answers to its calls from left to right, and for none that its verdict
/// does not need: a conjunction that fails and a disjunction that holds on the left ask for
/// nothing on the right.
pub proof fn law_asked(a: Box<FilterNode>, b: Box<FilterNode>, p: Seq<usize>, vars: Seq<Val>)
    ensures
        ({
            let l = filter_tree::first_lacking(*a, p.push(0), vars);
            let r = filter_tree::first_lacking(*b, p.push(1), vars);
            let both = filter_tree::first_lacking(FilterNode::And(a, b), p, vars);
            let either = filter_tree::first_lacking(FilterNode::Or(a, b), p, vars);
            &&& l is Some ==> both == l && either == l
            &&& l is None && !filter_tree::holds(*a, vars) ==> both is None && either == r
            &&& l is None && filter_tree::holds(*a, vars) ==> both == r && either is None
            &&& filter_tree::first_lacking(FilterNode::Not(a), p, vars) == l
        }),
{
}

/// The values of variables, by their indices.
pub open spec fn values_at(idxs: Seq<usize>, vars: Seq<Val>) -> Seq<Val> {
    Seq::new(idxs.len(), |i: int| vars[idxs[i] as int])
}

/// A call asks for its answer with the values of its variables, where it stands, unless the
/// answer is there. Tests without a call ask for nothing.
pub proof fn law_call_asked(n: FilterNode, p: Seq<usize>, vars: Seq<Val>)
    ensures
        match n {
            FilterNode::FnCmpResult { func, arg_idxs, .. } => {
                let args = values_at(arg_idxs@, vars);
                let here = Site { path: p, rounds: Seq::empty() };
                let kept = Site { path: Seq::empty(), rounds: Seq::empty() };
                let there = exists|k: int|
                    0 <= k < func.host@.len() && (#[trigger] func.host@[k]).0 == Req::Call(
                        kept,
                        func.name@,
                        None,
                        args,
                    );
                filter_tree::first_lacking(n, p, vars) == (if there {
                    None
                } else {
                    Some(Req::Call(here, func.name@, None, args))
                })
            },
            FilterNode::And(_, _) => true,
            FilterNode::Or(_, _) => true,
            FilterNode::Not(_) => true,
            _ => filter_tree::first_lacking(n, p, vars) is None,
        },
{
    if let FilterNode::FnCmpResult { func, arg_idxs, .. } = n {
        let args = values_at(arg_idxs@, vars);
        assert(filter_tree::call_args(arg_idxs@, vars) =~= args);
        lemma_answer_there(func.host@, Req::Call(Site::root(), func.name@, None, args), 0);
    }
}

proof fn lemma_answer_there(t: Seq<(Req, Outcome)>, q: Req, from: int)
    requires
        0 <= from,
    ensures
        error::answer_from(t, q, from) is Some <==> exists|k: int|
            from <= k < t.len() && (#[trigger] t[k]).0 == q,
    decreases t.len() - from,
{
    if from < t.len() {
        lemma_answer_there(t, q, from + 1);
    }
}

} // verus!
