//! Laws of filters and rules: what their tests say of the variables.

use crate::error;
use crate::error::{Fault, Outcome, Req};
use crate::laws::arithmetic::{divides, lemma_truncating};
use crate::laws::collections::{has_key, is_entry, lemma_entry};
use crate::laws::machines::lemma_cropped;
use crate::laws::stack::lemma_is_entry;
use crate::objects;
use crate::objects::{KeyVal, Val};
use crate::ops;
use crate::ops::BinOp;
use crate::patterns;
use crate::strings;
use crate::vm::filter_tree;
use crate::vm::filter_tree::{FilterNode, FnCallPtr, I64Expr, IntCmp, ListExpr, StrExpr};
use crate::vm::ruleset;
use crate::vm::ruleset::{ACRule, FieldPartitionedRuleset, IntRule, StrRule};
use vstd::prelude::*;

verus! {

/// The variable at an index.
pub open spec fn at(vars: Seq<Val>, idx: usize) -> Val {
    vars[idx as int]
}

/// A variable is there and an integer.
pub open spec fn int_var(vars: Seq<Val>, idx: usize, i: i64) -> bool {
    idx < vars.len() && at(vars, idx) == Val::Int(i)
}

/// A variable is there and a text.
pub open spec fn text_var(vars: Seq<Val>, idx: usize, s: Seq<char>) -> bool {
    idx < vars.len() && at(vars, idx) == Val::String(s)
}

/// A comparison of an integer variable with an integer says what the integers say, and what the
/// comparison of the language says; of a variable that is no integer it does not hold.
pub proof fn law_int_comparisons(
    vars: Seq<Val>,
    idx: usize,
    val: i64,
    i: i64,
    host: Seq<(Req, Outcome)>,
)
    requires
        idx < vars.len(),
    ensures
        ({
            let v = at(vars, idx);
            let c = Val::Int(val);
            let yes = Ok::<Val, Fault>(Val::Bool(true));
            &&& v == Val::Int(i) ==> (filter_tree::holds(FilterNode::EqInt { idx, val }, vars) <==> i
                == val)
            &&& v is Int ==> (filter_tree::holds(FilterNode::EqInt { idx, val }, vars)
                <==> ops::binary_result(BinOp::Equals, v, c, host) == yes)
            &&& !(v is Int) ==> !filter_tree::holds(FilterNode::EqInt { idx, val }, vars)
            &&& v == Val::Int(i) ==> (filter_tree::holds(FilterNode::NeInt { idx, val }, vars) <==> i
                != val)
            &&& v is Int ==> (filter_tree::holds(FilterNode::NeInt { idx, val }, vars)
                <==> ops::binary_result(BinOp::NotEquals, v, c, host) == yes)
            &&& !(v is Int) ==> !filter_tree::holds(FilterNode::NeInt { idx, val }, vars)
            &&& v == Val::Int(i) ==> (filter_tree::holds(FilterNode::LtInt { idx, val }, vars) <==> i
                < val)
            &&& v is Int ==> (filter_tree::holds(FilterNode::LtInt { idx, val }, vars)
                <==> ops::binary_result(BinOp::Less, v, c, host) == yes)
            &&& !(v is Int) ==> !filter_tree::holds(FilterNode::LtInt { idx, val }, vars)
            &&& v == Val::Int(i) ==> (filter_tree::holds(FilterNode::LeInt { idx, val }, vars) <==> i
                <= val)
            &&& v is Int ==> (filter_tree::holds(FilterNode::LeInt { idx, val }, vars)
                <==> ops::binary_result(BinOp::LessEquals, v, c, host) == yes)
            &&& !(v is Int) ==> !filter_tree::holds(FilterNode::LeInt { idx, val }, vars)
            &&& v == Val::Int(i) ==> (filter_tree::holds(FilterNode::GtInt { idx, val }, vars) <==> i
                > val)
            &&& v is Int ==> (filter_tree::holds(FilterNode::GtInt { idx, val }, vars)
                <==> ops::binary_result(BinOp::Greater, v, c, host) == yes)
            &&& !(v is Int) ==> !filter_tree::holds(FilterNode::GtInt { idx, val }, vars)
            &&& v == Val::Int(i) ==> (filter_tree::holds(FilterNode::GeInt { idx, val }, vars) <==> i
                >= val)
            &&& v is Int ==> (filter_tree::holds(FilterNode::GeInt { idx, val }, vars)
                <==> ops::binary_result(BinOp::GreaterEquals, v, c, host) == yes)
            &&& !(v is Int) ==> !filter_tree::holds(FilterNode::GeInt { idx, val }, vars)
        }),
{
}

/// A rule on an integer is the filter of the same comparison; of a variable that is not there,
/// or no integer, no rule holds.
pub proof fn law_int_rules(vars: Seq<Val>, var_idx: usize, val: i64, i: i64, vals: Vec<i64>)
    ensures
        int_var(vars, var_idx, i) ==> (ruleset::int_rule_holds(IntRule::Eq { var_idx, val }, vars)
            <==> i == val),
        var_idx < vars.len() ==> ruleset::int_rule_holds(IntRule::Eq { var_idx, val }, vars)
            == filter_tree::holds(FilterNode::EqInt { idx: var_idx, val }, vars),
        var_idx >= vars.len() ==> !ruleset::int_rule_holds(IntRule::Eq { var_idx, val }, vars),
        int_var(vars, var_idx, i) ==> (ruleset::int_rule_holds(IntRule::Ne { var_idx, val }, vars)
            <==> i != val),
        var_idx < vars.len() ==> ruleset::int_rule_holds(IntRule::Ne { var_idx, val }, vars)
            == filter_tree::holds(FilterNode::NeInt { idx: var_idx, val }, vars),
        var_idx >= vars.len() ==> !ruleset::int_rule_holds(IntRule::Ne { var_idx, val }, vars),
        int_var(vars, var_idx, i) ==> (ruleset::int_rule_holds(IntRule::Lt { var_idx, val }, vars)
            <==> i < val),
        var_idx < vars.len() ==> ruleset::int_rule_holds(IntRule::Lt { var_idx, val }, vars)
            == filter_tree::holds(FilterNode::LtInt { idx: var_idx, val }, vars),
        var_idx >= vars.len() ==> !ruleset::int_rule_holds(IntRule::Lt { var_idx, val }, vars),
        int_var(vars, var_idx, i) ==> (ruleset::int_rule_holds(IntRule::Le { var_idx, val }, vars)
            <==> i <= val),
        var_idx < vars.len() ==> ruleset::int_rule_holds(IntRule::Le { var_idx, val }, vars)
            == filter_tree::holds(FilterNode::LeInt { idx: var_idx, val }, vars),
        var_idx >= vars.len() ==> !ruleset::int_rule_holds(IntRule::Le { var_idx, val }, vars),
        int_var(vars, var_idx, i) ==> (ruleset::int_rule_holds(IntRule::Gt { var_idx, val }, vars)
            <==> i > val),
        var_idx < vars.len() ==> ruleset::int_rule_holds(IntRule::Gt { var_idx, val }, vars)
            == filter_tree::holds(FilterNode::GtInt { idx: var_idx, val }, vars),
        var_idx >= vars.len() ==> !ruleset::int_rule_holds(IntRule::Gt { var_idx, val }, vars),
        int_var(vars, var_idx, i) ==> (ruleset::int_rule_holds(IntRule::Ge { var_idx, val }, vars)
            <==> i >= val),
        var_idx < vars.len() ==> ruleset::int_rule_holds(IntRule::Ge { var_idx, val }, vars)
            == filter_tree::holds(FilterNode::GeInt { idx: var_idx, val }, vars),
        var_idx >= vars.len() ==> !ruleset::int_rule_holds(IntRule::Ge { var_idx, val }, vars),
        int_var(vars, var_idx, i) ==> (ruleset::int_rule_holds(
            IntRule::InSet { var_idx, vals },
            vars,
        ) <==> exists|k: int| 0 <= k < vals@.len() && vals@[k] == i),
        var_idx < vars.len() ==> ruleset::int_rule_holds(IntRule::InSet { var_idx, vals }, vars)
            == filter_tree::holds(FilterNode::InIntLinear { idx: var_idx, vals }, vars),
        var_idx >= vars.len() ==> !ruleset::int_rule_holds(
            IntRule::InSet { var_idx, vals },
            vars,
        ),
{
}

/// One text begins, ends or goes on with another.
pub open spec fn begins_with(s: Seq<char>, t: Seq<char>) -> bool {
    t.len() <= s.len() && forall|k: int| 0 <= k < t.len() ==> #[trigger] s[k] == t[k]
}

pub open spec fn ends_with(s: Seq<char>, t: Seq<char>) -> bool {
    t.len() <= s.len() && forall|k: int|
        0 <= k < t.len() ==> s[s.len() - t.len() + k] == #[trigger] t[k]
}

pub open spec fn goes_with(s: Seq<char>, t: Seq<char>) -> bool {
    exists|a: Seq<char>, b: Seq<char>| s == #[trigger] (a + t + b)
}

pub proof fn lemma_text_tests(s: Seq<char>, t: Seq<char>)
    ensures
        t.is_prefix_of(s) == begins_with(s, t),
        t.is_suffix_of(s) == ends_with(s, t),
        strings::occurs_in(t, s) == goes_with(s, t),
{
    if t.is_prefix_of(s) {
        assert(t == s.subrange(0, t.len() as int));
        assert forall|k: int| 0 <= k < t.len() implies #[trigger] s[k] == t[k] by {
            assert(s.subrange(0, t.len() as int)[k] == s[k]);
        }
    }
    if begins_with(s, t) {
        assert(s.subrange(0, t.len() as int) =~= t);
    }
    if t.is_suffix_of(s) {
        assert forall|k: int| 0 <= k < t.len() implies s[s.len() - t.len() + k] == #[trigger] t[
            k
        ] by {
            assert(s.subrange(s.len() - t.len(), s.len() as int)[k] == s[s.len() - t.len() + k]);
        }
    }
    if ends_with(s, t) {
        assert(s.subrange(s.len() - t.len(), s.len() as int) =~= t);
    }
    if strings::occurs_in(t, s) {
        let i = choose|i: int| strings::occurs_at(t, s, i);
        let a = s.subrange(0, i);
        let b = s.subrange(i + t.len(), s.len() as int);
        assert(s =~= a + t + b);
    }
    if goes_with(s, t) {
        let (a, b) = choose|a: Seq<char>, b: Seq<char>| s == #[trigger] (a + t + b);
        assert(s.subrange(a.len() as int, (a.len() + t.len()) as int) =~= t);
        assert(strings::occurs_at(t, s, a.len() as int));
    }
}

/// A rule on a text is the filter of the same test: the texts are the same, or the one begins or
/// ends with the other.
pub proof fn law_text_rules(vars: Seq<Val>, var_idx: usize, val: String, s: Seq<char>)
    ensures
        ({
            let same = StrRule::Eq { var_idx, val };
            let first = StrRule::StartsWith { var_idx, prefix: val };
            let last = StrRule::EndsWith { var_idx, suffix: val };
            let node_same = FilterNode::EqStr { idx: var_idx, val };
            let node_first = FilterNode::StartsWith { idx: var_idx, prefix: val };
            let node_last = FilterNode::EndsWith { idx: var_idx, suffix: val };
            &&& text_var(vars, var_idx, s) ==> {
                &&& ruleset::str_rule_holds(same, vars) <==> s == val@
                &&& ruleset::str_rule_holds(first, vars) <==> begins_with(s, val@)
                &&& ruleset::str_rule_holds(last, vars) <==> ends_with(s, val@)
            }
            &&& var_idx < vars.len() ==> {
                &&& ruleset::str_rule_holds(same, vars) == filter_tree::holds(node_same, vars)
                &&& ruleset::str_rule_holds(first, vars) == filter_tree::holds(node_first, vars)
                &&& ruleset::str_rule_holds(last, vars) == filter_tree::holds(node_last, vars)
            }
            &&& var_idx >= vars.len() || !(at(vars, var_idx) is String) ==> {
                &&& !ruleset::str_rule_holds(same, vars)
                &&& !ruleset::str_rule_holds(first, vars)
                &&& !ruleset::str_rule_holds(last, vars)
            }
        }),
{
    lemma_text_tests(s, val@);
}

/// A rule on words holds where a scan finds one of the first 64, and as many different ones as
/// are asked for.
pub proof fn law_word_rules(r: ACRule, vars: Seq<Val>, s: Seq<char>)
    ensures
        text_var(vars, r.var_idx, s) ==> (ruleset::ac_rule_holds(r, vars) <==> exists|w: Set<u64>|
            #[trigger] found_in(w, patterns::word_finds(r.automaton@, s)) && w.len() >= 1
                && w.len() >= r.min_matches),
        r.var_idx >= vars.len() || !(vars[r.var_idx as int] is String) ==> !ruleset::ac_rule_holds(
            r,
            vars,
        ),
{
    let finds = patterns::word_finds(r.automaton@, s);
    let all = ruleset::low_finds(finds);
    assert(found_in(all, finds));
    if text_var(vars, r.var_idx, s) {
        assert forall|w: Set<u64>| #[trigger] found_in(w, finds) implies w.len() <= all.len() by {
            assert(w.subset_of(all));
            vstd::set_lib::lemma_len_subset(w, all);
        }
    }
}

/// Numbers of words below 64 that a scan found.
pub open spec fn found_in(w: Set<u64>, finds: Seq<u64>) -> bool {
    w.finite() && forall|p: u64| #[trigger] w.contains(p) ==> p < 64 && finds.contains(p)
}

/// What the rules say stands in their order: those on integers, on texts, on words, and the
/// rest.
pub proof fn law_verdicts(s: FieldPartitionedRuleset, vars: Seq<Val>, k: int)
    ensures
        ({
            let v = ruleset::verdicts(s, vars);
            let a = s.int_rules@.len();
            let b = a + s.str_rules@.len();
            let c = b + s.ac_rules@.len();
            &&& v.len() == c + s.complex_rules@.len()
            &&& 0 <= k < a ==> v[k] == ruleset::int_rule_holds(s.int_rules@[k], vars)
            &&& a <= k < b ==> v[k] == ruleset::str_rule_holds(s.str_rules@[k - a], vars)
            &&& b <= k < c ==> v[k] == ruleset::ac_rule_holds(s.ac_rules@[k - b], vars)
            &&& c <= k < v.len() ==> v[k] == filter_tree::holds(s.complex_rules@[k - c], vars)
        }),
{
}

/// The number of rules that hold is how many times `true` is among the verdicts: none where all
/// are false, all where all are true, and one more with each that is.
pub proof fn law_counting(s: Seq<bool>, b: bool)
    ensures
        ruleset::count_true(s.push(b)) == ruleset::count_true(s) + (if b {
            1int
        } else {
            0
        }),
        ruleset::count_true(Seq::empty()) == 0,
        ruleset::count_true(s) == 0 <==> !s.contains(true),
        ruleset::count_true(s) == s.len() <==> !s.contains(false),
    decreases s.len(),
{
    assert(s.push(b).drop_last() =~= s);
    ruleset::law_count_verdicts(s);
    if s.len() > 0 {
        let p = s.drop_last();
        law_counting(p, b);
        ruleset::law_count_verdicts(p);
        assert(s =~= p.push(s.last()));
        if s.contains(true) && !s.last() {
            let k = choose|k: int| 0 <= k < s.len() && s[k] == true;
            assert(p[k] == true);
        }
        if p.contains(true) {
            let k = choose|k: int| 0 <= k < p.len() && p[k] == true;
            assert(s[k] == true);
        }
        if s.contains(false) && s.last() {
            let k = choose|k: int| 0 <= k < s.len() && s[k] == false;
            assert(p[k] == false);
        }
        if p.contains(false) {
            let k = choose|k: int| 0 <= k < p.len() && p[k] == false;
            assert(s[k] == false);
        }
        assert(s[s.len() - 1] == s.last());
    }
}

/// A test of an integer variable after arithmetic tests what the arithmetic gives: the sum,
/// difference or product, which wraps where it does not fit in 64 bits.
pub proof fn law_arithmetic_tests(
    vars: Seq<Val>,
    idx: usize,
    arith: i64,
    cmp: i64,
    i: i64,
    sum: i64,
    difference: i64,
    product: i64,
)
    requires
        int_var(vars, idx, i),
        (sum - (i + arith)) % 0x1_0000_0000_0000_0000 == 0,
        (difference - (i - arith)) % 0x1_0000_0000_0000_0000 == 0,
        (product - i * arith) % 0x1_0000_0000_0000_0000 == 0,
    ensures
        filter_tree::holds(FilterNode::AddEq { idx, arith, cmp }, vars) <==> sum == cmp,
        filter_tree::holds(FilterNode::AddNe { idx, arith, cmp }, vars) <==> sum != cmp,
        filter_tree::holds(FilterNode::AddLt { idx, arith, cmp }, vars) <==> sum < cmp,
        filter_tree::holds(FilterNode::AddLe { idx, arith, cmp }, vars) <==> sum <= cmp,
        filter_tree::holds(FilterNode::AddGt { idx, arith, cmp }, vars) <==> sum > cmp,
        filter_tree::holds(FilterNode::AddGe { idx, arith, cmp }, vars) <==> sum >= cmp,
        filter_tree::holds(FilterNode::SubEq { idx, arith, cmp }, vars) <==> difference == cmp,
        filter_tree::holds(FilterNode::SubNe { idx, arith, cmp }, vars) <==> difference != cmp,
        filter_tree::holds(FilterNode::SubLt { idx, arith, cmp }, vars) <==> difference < cmp,
        filter_tree::holds(FilterNode::SubLe { idx, arith, cmp }, vars) <==> difference <= cmp,
        filter_tree::holds(FilterNode::SubGt { idx, arith, cmp }, vars) <==> difference > cmp,
        filter_tree::holds(FilterNode::SubGe { idx, arith, cmp }, vars) <==> difference >= cmp,
        filter_tree::holds(FilterNode::MulEq { idx, arith, cmp }, vars) <==> product == cmp,
        filter_tree::holds(FilterNode::MulNe { idx, arith, cmp }, vars) <==> product != cmp,
        filter_tree::holds(FilterNode::MulLt { idx, arith, cmp }, vars) <==> product < cmp,
        filter_tree::holds(FilterNode::MulLe { idx, arith, cmp }, vars) <==> product <= cmp,
        filter_tree::holds(FilterNode::MulGt { idx, arith, cmp }, vars) <==> product > cmp,
        filter_tree::holds(FilterNode::MulGe { idx, arith, cmp }, vars) <==> product >= cmp,
{
    lemma_wrapped(i + arith, sum, i.wrapping_add(arith));
    lemma_wrapped(i - arith, difference, i.wrapping_sub(arith));
    lemma_product(i, arith);
    lemma_wrapped(i * arith, product, i.wrapping_mul(arith));
}

/// A product that wraps is as far from the product as a multiple of all integers of 64 bits.
pub proof fn lemma_product(i: i64, j: i64)
    ensures
        (i.wrapping_mul(j) - i * j) % 0x1_0000_0000_0000_0000 == 0,
{
    lemma_cropped(i * j, i.wrapping_mul(j) as int);
}

/// In 64 bits there is one integer that is as far from another as a multiple of all of them.
pub proof fn lemma_wrapped(n: int, a: i64, b: i64)
    requires
        (a - n) % 0x1_0000_0000_0000_0000 == 0,
        (b - n) % 0x1_0000_0000_0000_0000 == 0,
    ensures
        a == b,
{
}

/// Such a test does not hold of a variable that is no integer.
pub proof fn law_no_arithmetic_tests(vars: Seq<Val>, idx: usize, arith: i64, cmp: i64)
    requires
        idx < vars.len(),
        !(at(vars, idx) is Int),
    ensures
        !filter_tree::holds(FilterNode::AddEq { idx, arith, cmp }, vars),
        !filter_tree::holds(FilterNode::AddNe { idx, arith, cmp }, vars),
        !filter_tree::holds(FilterNode::AddLt { idx, arith, cmp }, vars),
        !filter_tree::holds(FilterNode::AddLe { idx, arith, cmp }, vars),
        !filter_tree::holds(FilterNode::AddGt { idx, arith, cmp }, vars),
        !filter_tree::holds(FilterNode::AddGe { idx, arith, cmp }, vars),
        !filter_tree::holds(FilterNode::SubEq { idx, arith, cmp }, vars),
        !filter_tree::holds(FilterNode::SubNe { idx, arith, cmp }, vars),
        !filter_tree::holds(FilterNode::SubLt { idx, arith, cmp }, vars),
        !filter_tree::holds(FilterNode::SubLe { idx, arith, cmp }, vars),
        !filter_tree::holds(FilterNode::SubGt { idx, arith, cmp }, vars),
        !filter_tree::holds(FilterNode::SubGe { idx, arith, cmp }, vars),
        !filter_tree::holds(FilterNode::MulEq { idx, arith, cmp }, vars),
        !filter_tree::holds(FilterNode::MulNe { idx, arith, cmp }, vars),
        !filter_tree::holds(FilterNode::MulLt { idx, arith, cmp }, vars),
        !filter_tree::holds(FilterNode::MulLe { idx, arith, cmp }, vars),
        !filter_tree::holds(FilterNode::MulGt { idx, arith, cmp }, vars),
        !filter_tree::holds(FilterNode::MulGe { idx, arith, cmp }, vars),
{
}

/// A test of a text variable says what is so of the texts: that they are the same or not, that
/// the text is one of several, begins or ends with another, or goes with it, with one of
/// several, or with so many of them; or that a regular expression is found in it.
pub proof fn law_text_tests(
    vars: Seq<Val>,
    idx: usize,
    s: Seq<char>,
    val: String,
    vals: Vec<String>,
)
    requires
        text_var(vars, idx, s),
    ensures
        filter_tree::holds(FilterNode::EqStr { idx, val }, vars) <==> s == val@,
        filter_tree::holds(FilterNode::NeStr { idx, val }, vars) <==> s != val@,
        filter_tree::holds(FilterNode::StartsWith { idx, prefix: val }, vars) <==> begins_with(
            s,
            val@,
        ),
        filter_tree::holds(FilterNode::EndsWith { idx, suffix: val }, vars) <==> ends_with(s, val@),
        filter_tree::holds(FilterNode::Contains { idx, substring: val }, vars) <==> goes_with(
            s,
            val@,
        ),
        filter_tree::holds(FilterNode::InStrLinear { idx, vals }, vars) <==> exists|k: int|
            0 <= k < vals@.len() && (#[trigger] vals@[k])@ == s,
        filter_tree::holds(FilterNode::InStrHash { idx, set: vals }, vars) <==> exists|k: int|
            0 <= k < vals@.len() && (#[trigger] vals@[k])@ == s,
        filter_tree::holds(FilterNode::ContainsAny { idx, needles: vals }, vars) <==> exists|k: int|
            0 <= k < vals@.len() && goes_with(s, (#[trigger] vals@[k])@),
{
    lemma_text_tests(s, val@);
    let t = objects::texts(vals@);
    if t.contains(s) {
        let k = choose|k: int| 0 <= k < t.len() && t[k] == s;
        assert(vals@[k]@ == s);
    }
    if exists|k: int| 0 <= k < vals@.len() && (#[trigger] vals@[k])@ == s {
        let k = choose|k: int| 0 <= k < vals@.len() && (#[trigger] vals@[k])@ == s;
        assert(t[k] == s);
    }
    assert forall|k: int| 0 <= k < vals@.len() implies strings::occurs_in(#[trigger] t[k], s)
        == goes_with(s, vals@[k]@) by {
        lemma_text_tests(s, vals@[k]@);
    }
    if patterns::some_occurs(t, s) {
        let k = choose|k: int| 0 <= k < t.len() && strings::occurs_in(#[trigger] t[k], s);
        assert(goes_with(s, vals@[k]@));
    }
    if exists|k: int| 0 <= k < vals@.len() && goes_with(s, (#[trigger] vals@[k])@) {
        let k = choose|k: int| 0 <= k < vals@.len() && goes_with(s, (#[trigger] vals@[k])@);
        assert(strings::occurs_in(t[k], s));
    }
}

/// A test of a text does not hold of a variable that is none, not even that of inequality.
pub proof fn law_no_text_tests(vars: Seq<Val>, idx: usize, val: String, vals: Vec<String>)
    requires
        idx < vars.len(),
        !(at(vars, idx) is String),
    ensures
        !filter_tree::holds(FilterNode::EqStr { idx, val }, vars),
        !filter_tree::holds(FilterNode::NeStr { idx, val }, vars),
        !filter_tree::holds(FilterNode::StartsWith { idx, prefix: val }, vars),
        !filter_tree::holds(FilterNode::EndsWith { idx, suffix: val }, vars),
        !filter_tree::holds(FilterNode::Contains { idx, substring: val }, vars),
        !filter_tree::holds(FilterNode::InStrLinear { idx, vals }, vars),
        !filter_tree::holds(FilterNode::InStrHash { idx, set: vals }, vars),
        !filter_tree::holds(FilterNode::ContainsAny { idx, needles: vals }, vars),
{
}

/// A filter of words or of a regular expression, on a text and on anything else.
pub proof fn law_pattern_tests(n: FilterNode, vars: Seq<Val>, s: Seq<char>)
    ensures
        n matches FilterNode::Matches { idx, regex } ==> {
            &&& text_var(vars, idx, s) ==> (filter_tree::holds(n, vars)
                <==> patterns::regex_found(regex@, s))
            &&& idx < vars.len() && !(at(vars, idx) is String) ==> !filter_tree::holds(n, vars)
        },
        n matches FilterNode::AhoContains { idx, ac, min } ==> {
            &&& text_var(vars, idx, s) ==> (filter_tree::holds(n, vars) <==> patterns::occurring(
                ac@,
                s,
            ) >= 1 && patterns::occurring(ac@, s) >= min)
            &&& idx < vars.len() && !(at(vars, idx) is String) ==> !filter_tree::holds(n, vars)
        },
{
    match n {
        FilterNode::AhoContains { idx, ac, min } => {
            patterns::law_occurring(ac@, s);
        },
        _ => {},
    }
}

/// How many words occur in a text: one more with each that does.
pub proof fn law_occurring_words(words: Seq<Seq<char>>, w: Seq<char>, s: Seq<char>)
    ensures
        patterns::occurring(words.push(w), s) == patterns::occurring(words, s) + (if goes_with(
            s,
            w,
        ) {
            1int
        } else {
            0
        }),
        patterns::occurring(Seq::empty(), s) == 0,
{
    assert(words.push(w).drop_last() =~= words);
    lemma_text_tests(s, w);
}

/// Membership in a set of integers, however it is kept; a boolean variable; a constant; and the
/// connectives.
pub proof fn law_simple_tests(
    n: FilterNode,
    vars: Seq<Val>,
    i: i64,
    val: bool,
    idx: usize,
    a: Box<FilterNode>,
    b: Box<FilterNode>,
)
    ensures
        n matches FilterNode::InIntLinear { idx, vals } ==> {
            &&& int_var(vars, idx, i) ==> (filter_tree::holds(n, vars) <==> exists|k: int|
                0 <= k < vals@.len() && vals@[k] == i)
            &&& idx < vars.len() && !(at(vars, idx) is Int) ==> !filter_tree::holds(n, vars)
        },
        n matches FilterNode::InIntHash { idx, set } ==> {
            &&& int_var(vars, idx, i) ==> (filter_tree::holds(n, vars) <==> set@.contains(i))
            &&& idx < vars.len() && !(at(vars, idx) is Int) ==> !filter_tree::holds(n, vars)
        },
        idx < vars.len() ==> (filter_tree::holds(FilterNode::BoolVar { idx }, vars)
            <==> at(vars, idx) == Val::Bool(true)),
        filter_tree::holds(FilterNode::BoolLiteral { val }, vars) == val,
        filter_tree::holds(FilterNode::And(a, b), vars) == (filter_tree::holds(*a, vars)
            && filter_tree::holds(*b, vars)),
        filter_tree::holds(FilterNode::Or(a, b), vars) == (filter_tree::holds(*a, vars)
            || filter_tree::holds(*b, vars)),
        filter_tree::holds(FilterNode::Not(a), vars) != filter_tree::holds(*a, vars),
{
}

/// What a comparison of two integers says.
pub proof fn law_comparisons(a: i64, b: i64)
    ensures
        filter_tree::compares(IntCmp::Eq, a, b) <==> a == b,
        filter_tree::compares(IntCmp::Ne, a, b) <==> a != b,
        filter_tree::compares(IntCmp::Lt, a, b) <==> a < b,
        filter_tree::compares(IntCmp::Le, a, b) <==> a <= b,
        filter_tree::compares(IntCmp::Gt, a, b) <==> a > b,
        filter_tree::compares(IntCmp::Ge, a, b) <==> a >= b,
{
}

/// An integer expression of a filter is computed as the machine's integers are: what does not
/// fit wraps, a quotient is cut off, and what is divided by zero is zero. A variable that is no
/// integer counts as zero.
#[verifier::rlimit(60)]
pub proof fn law_int_expressions(
    a: Box<I64Expr>,
    b: Box<I64Expr>,
    vars: Seq<Val>,
    idx: usize,
    val: i64,
)
    requires
        idx < vars.len(),
    ensures
        ({
            let x = filter_tree::int_value(*a, vars);
            let y = filter_tree::int_value(*b, vars);
            let all = 0x1_0000_0000_0000_0000int;
            &&& (filter_tree::int_value(I64Expr::Add(a, b), vars) - (x + y)) % all == 0
            &&& (filter_tree::int_value(I64Expr::Sub(a, b), vars) - (x - y)) % all == 0
            &&& (filter_tree::int_value(I64Expr::Mul(a, b), vars) - x * y) % all == 0
            &&& (filter_tree::int_value(I64Expr::Neg(a), vars) + x) % all == 0
            &&& y != 0 && !(x == -0x8000_0000_0000_0000 && y == -1) ==> divides(
                x as int,
                y as int,
                filter_tree::int_value(I64Expr::Div(a, b), vars) as int,
                filter_tree::int_value(I64Expr::Mod(a, b), vars) as int,
            )
            &&& y == 0 ==> filter_tree::int_value(I64Expr::Div(a, b), vars) == 0
                && filter_tree::int_value(I64Expr::Mod(a, b), vars) == 0
            &&& x == -0x8000_0000_0000_0000 && y == -1 ==> filter_tree::int_value(
                I64Expr::Div(a, b),
                vars,
            ) == x && filter_tree::int_value(I64Expr::Mod(a, b), vars) == 0
        }),
        filter_tree::int_value(I64Expr::Literal(val), vars) == val,
        at(vars, idx) matches Val::Int(i) ==> filter_tree::int_value(I64Expr::Var(idx), vars)
            == i,
        !(at(vars, idx) is Int) ==> filter_tree::int_value(I64Expr::Var(idx), vars) == 0,
{
    let x = filter_tree::int_value(*a, vars);
    let y = filter_tree::int_value(*b, vars);
    let n = x * y;
    lemma_cropped(n, x.wrapping_mul(y) as int);
    if y != 0 && !(x == i64::MIN && y == -1) {
        lemma_truncating(x, y);
    }
}

/// The lengths that a filter measures: of a text in bytes, where joined texts add up, and of a
/// list in items.
pub proof fn law_lengths(
    s: Box<StrExpr>,
    t: Box<StrExpr>,
    text: String,
    l: Box<ListExpr>,
    vars: Seq<Val>,
    idx: usize,
)
    requires
        idx < vars.len(),
    ensures
        filter_tree::str_len(*s, vars) <= i64::MAX && filter_tree::str_len(*s, vars) <= usize::MAX
            ==> filter_tree::int_value(I64Expr::StrLen(s), vars) == filter_tree::str_len(*s, vars),
        filter_tree::str_len(StrExpr::Concat(s, t), vars) == filter_tree::str_len(*s, vars)
            + filter_tree::str_len(*t, vars),
        filter_tree::str_value(StrExpr::Concat(s, t), vars) == filter_tree::str_value(*s, vars)
            + filter_tree::str_value(*t, vars),
        filter_tree::str_len(StrExpr::Literal(text), vars) == vstd::utf8::encode_utf8(
            text@,
        ).len(),
        filter_tree::str_value(StrExpr::Literal(text), vars) == text@,
        at(vars, idx) matches Val::String(w) ==> filter_tree::str_len(StrExpr::Var(idx), vars)
            == vstd::utf8::encode_utf8(w).len() && filter_tree::str_value(StrExpr::Var(idx), vars)
            == w,
        at(vars, idx) matches Val::List(w) ==> w.len() <= i64::MAX && w.len() <= usize::MAX
            ==> *l == ListExpr::Var(idx) ==> filter_tree::int_value(I64Expr::ListLen(l), vars)
            == w.len(),
{
}

/// A comparison of two integer expressions compares their values.
pub proof fn law_expression_tests(left: I64Expr, right: I64Expr, vars: Seq<Val>)
    ensures
        ({
            let a = filter_tree::int_value(left, vars);
            let b = filter_tree::int_value(right, vars);
            &&& filter_tree::holds(FilterNode::EqExpr { left, right }, vars) <==> a == b
            &&& filter_tree::holds(FilterNode::NeExpr { left, right }, vars) <==> a != b
            &&& filter_tree::holds(FilterNode::LtExpr { left, right }, vars) <==> a < b
            &&& filter_tree::holds(FilterNode::LeExpr { left, right }, vars) <==> a <= b
            &&& filter_tree::holds(FilterNode::GtExpr { left, right }, vars) <==> a > b
            &&& filter_tree::holds(FilterNode::GeExpr { left, right }, vars) <==> a >= b
        }),
{
}

/// Some item of a list is an integer that compares with another as asked.
pub open spec fn some_item(l: Seq<Val>, cmp: IntCmp, b: i64) -> bool {
    exists|k: int|
        0 <= k < l.len() && (#[trigger] l[k] matches Val::Int(i) && match cmp {
            IntCmp::Eq => i == b,
            IntCmp::Ne => i != b,
            IntCmp::Lt => i < b,
            IntCmp::Le => i <= b,
            IntCmp::Gt => i > b,
            IntCmp::Ge => i >= b,
        })
}

/// Filters that look through a list or the values of a map hold where some item does as asked.
pub proof fn law_loop_tests(n: FilterNode, vars: Seq<Val>)
    ensures
        n matches FilterNode::ExistsIntList { collection_idx, cmp_val, cmp } ==> collection_idx
            < vars.len() ==> (filter_tree::holds(n, vars) <==> (at(vars, collection_idx) matches
            Val::List(l) && some_item(l, cmp, cmp_val))),
        n matches FilterNode::ExistsStrEq { collection_idx, cmp_val } ==> collection_idx
            < vars.len() ==> (filter_tree::holds(n, vars) <==> (at(vars, collection_idx) matches
            Val::List(l) && exists|k: int| 0 <= k < l.len() && l[k] == Val::String(cmp_val@))),
        n matches FilterNode::ExistsIntSet { collection_idx, vals } ==> collection_idx < vars.len()
            ==> (filter_tree::holds(n, vars) <==> (at(vars, collection_idx) matches Val::List(l)
            && exists|k: int, j: int|
            #![trigger l[k], vals@[j]]
            0 <= k < l.len() && 0 <= j < vals@.len() && l[k] == Val::Int(vals@[j]))),
        n matches FilterNode::ExistsMapInt { collection_idx, cmp_val, cmp } ==> collection_idx
            < vars.len() ==> (filter_tree::holds(n, vars) <==> (at(vars, collection_idx) matches
            Val::Dict(m) && some_item(
            m.map_values(|e: (KeyVal, Val)| e.1),
            cmp,
            cmp_val,
        ))),
{
    match n {
        FilterNode::ExistsIntList { collection_idx, cmp_val, cmp } => {
            if collection_idx < vars.len() && at(vars, collection_idx) is List {
                lemma_some_item(at(vars, collection_idx)->List_0, cmp, cmp_val);
            }
        },
        FilterNode::ExistsIntSet { collection_idx, vals } => {
            if collection_idx < vars.len() && at(vars, collection_idx) is List {
                let l = at(vars, collection_idx)->List_0;
                if filter_tree::some_int_among(l, vals@) {
                    let k = choose|k: int|
                        0 <= k < l.len() && (#[trigger] l[k] matches Val::Int(i)
                            && vals@.contains(i));
                    let i = l[k]->Int_0;
                    let j = choose|j: int| 0 <= j < vals@.len() && vals@[j] == i;
                    assert(l[k] == Val::Int(vals@[j]));
                }
                if exists|k: int, j: int|
                    #![trigger l[k], vals@[j]]
                    0 <= k < l.len() && 0 <= j < vals@.len() && l[k] == Val::Int(vals@[j]) {
                    let (k, j) = choose|k: int, j: int|
                        #![trigger l[k], vals@[j]]
                        0 <= k < l.len() && 0 <= j < vals@.len() && l[k] == Val::Int(vals@[j]);
                    assert(vals@.contains(l[k]->Int_0));
                }
            }
        },
        FilterNode::ExistsMapInt { collection_idx, cmp_val, cmp } => {
            if collection_idx < vars.len() && at(vars, collection_idx) is Dict {
                let m = at(vars, collection_idx)->Dict_0;
                let l = m.map_values(|e: (KeyVal, Val)| e.1);
                lemma_some_item(l, cmp, cmp_val);
                if filter_tree::some_entry_compares(m, cmp, cmp_val) {
                    let k = choose|k: int|
                        0 <= k < m.len() && ((#[trigger] m[k]).1 matches Val::Int(i)
                            && filter_tree::compares(cmp, i, cmp_val));
                    assert(l[k] == m[k].1);
                }
                if filter_tree::some_int_compares(l, cmp, cmp_val) {
                    let k = choose|k: int|
                        0 <= k < l.len() && (#[trigger] l[k] matches Val::Int(i)
                            && filter_tree::compares(cmp, i, cmp_val));
                    assert(l[k] == m[k].1);
                }
            }
        },
        _ => {},
    }
}

proof fn lemma_some_item(l: Seq<Val>, cmp: IntCmp, b: i64)
    ensures
        filter_tree::some_int_compares(l, cmp, b) == some_item(l, cmp, b),
{
    if filter_tree::some_int_compares(l, cmp, b) {
        let k = choose|k: int|
            0 <= k < l.len() && (#[trigger] l[k] matches Val::Int(i) && filter_tree::compares(
                cmp,
                i,
                b,
            ));
        assert(l[k] is Int);
    }
    if some_item(l, cmp, b) {
        let k = choose|k: int|
            0 <= k < l.len() && (#[trigger] l[k] matches Val::Int(i) && match cmp {
                IntCmp::Eq => i == b,
                IntCmp::Ne => i != b,
                IntCmp::Lt => i < b,
                IntCmp::Le => i <= b,
                IntCmp::Gt => i > b,
                IntCmp::Ge => i >= b,
            });
        assert(l[k] is Int);
    }
}

/// Filters that look under a key of a map: at what is there, or through it where it is a list.
pub proof fn law_key_tests(n: FilterNode, vars: Seq<Val>, x: Val)
    ensures
        n matches FilterNode::MapIndexStrEq { map_idx, key, cmp_val } ==> map_idx < vars.len()
            ==> match at(vars, map_idx) {
            Val::Dict(m) => {
                &&& is_entry(m, Val::String(key@), x) ==> (filter_tree::holds(n, vars) <==> match x {
                    Val::String(s) => s == cmp_val@,
                    Val::List(l) => exists|k: int|
                        0 <= k < l.len() && l[k] == Val::String(cmp_val@),
                    _ => false,
                })
                &&& !has_key(m, Val::String(key@)) ==> !filter_tree::holds(n, vars)
            },
            _ => !filter_tree::holds(n, vars),
        },
        n matches FilterNode::MapIndexIntList { map_idx, key, cmp_val, cmp } ==> map_idx
            < vars.len() ==> match at(vars, map_idx) {
            Val::Dict(m) => {
                &&& is_entry(m, Val::String(key@), x) ==> (filter_tree::holds(n, vars) <==> match x {
                    Val::Int(_) => some_item(seq![x], cmp, cmp_val),
                    Val::List(l) => some_item(l, cmp, cmp_val),
                    _ => false,
                })
                &&& !has_key(m, Val::String(key@)) ==> !filter_tree::holds(n, vars)
            },
            _ => !filter_tree::holds(n, vars),
        },
{
    match n {
        FilterNode::MapIndexStrEq { map_idx, key, cmp_val } => {
            if map_idx < vars.len() && at(vars, map_idx) is Dict {
                let m = at(vars, map_idx)->Dict_0;
                lemma_entry(m, Val::String(key@));
                lemma_is_entry(m, Val::String(key@), x);
            }
        },
        FilterNode::MapIndexIntList { map_idx, key, cmp_val, cmp } => {
            if map_idx < vars.len() && at(vars, map_idx) is Dict {
                let m = at(vars, map_idx)->Dict_0;
                lemma_entry(m, Val::String(key@));
                lemma_is_entry(m, Val::String(key@), x);
                match x {
                    Val::List(l) => {
                        lemma_some_item(l, cmp, cmp_val);
                    },
                    Val::Int(i) => {
                        lemma_some_item(seq![x], cmp, cmp_val);
                        if filter_tree::compares(cmp, i, cmp_val) {
                            assert(seq![x][0] == x);
                        }
                    },
                    _ => {},
                }
            }
        },
        _ => {},
    }
}

/// A filter that calls a registered function compares the integer that it gives for the
/// variables; where it gives nothing, or something else, the filter does not hold.
pub proof fn law_function_tests(n: FilterNode, vars: Seq<Val>, i: i64)
    requires
        n is FnCmpResult,
    ensures
        n matches FilterNode::FnCmpResult { func, arg_idxs, cmp, literal } ==> {
            let args = Seq::new(arg_idxs@.len(), |k: int| at(vars, arg_idxs@[k]));
            let o = filter_tree::fn_result(func, args);
            &&& o == Ok::<Val, Fault>(Val::Int(i)) ==> (filter_tree::holds(n, vars) <==> some_item(
                seq![Val::Int(i)],
                cmp,
                literal,
            ))
            &&& !(o matches Ok(Val::Int(_))) ==> !filter_tree::holds(n, vars)
        },
{
    match n {
        FilterNode::FnCmpResult { func, arg_idxs, cmp, literal } => {
            let args = Seq::new(arg_idxs@.len(), |k: int| at(vars, arg_idxs@[k]));
            assert(filter_tree::call_args(arg_idxs@, vars) =~= args);
            lemma_some_item(seq![Val::Int(i)], cmp, literal);
            if filter_tree::compares(cmp, i, literal) {
                assert(seq![Val::Int(i)][0] == Val::Int(i));
            }
        },
        _ => {},
    }
}

/// A call of a registered function gives what is known of it under its name and its arguments,
/// or asks for that.
pub proof fn law_function_answers(
    f: FnCallPtr,
    args: Seq<Val>,
)
    ensures
        filter_tree::fn_result(f, args) == error::ask(
            f.host@,
            Req::Call(error::Site::root(), f.name@, None, args),
        ),
{
}

/// What filters cost: a test of an integer least, then expressions, texts, sets and words,
/// regular expressions, functions, and loops most; a negation as much as what it negates, and a
/// conjunction or disjunction both its sides, up to 255.
pub proof fn law_costs(a: Box<FilterNode>, b: Box<FilterNode>, n: FilterNode)
    ensures
        ({
            let c = filter_tree::cost_of(*a) + filter_tree::cost_of(*b);
            let total: int = if c > 255 {
                255
            } else {
                c
            };
            &&& filter_tree::cost_of(FilterNode::And(a, b)) == total
            &&& filter_tree::cost_of(FilterNode::Or(a, b)) == total
            &&& filter_tree::cost_of(FilterNode::Not(a)) == filter_tree::cost_of(*a)
        }),
        filter_tree::cost_of(n) >= 1,
        n is LtInt || n is AddEq || n is BoolVar || n is BoolLiteral ==> filter_tree::cost_of(n)
            == 1,
        n is GtExpr || n is EqExpr ==> filter_tree::cost_of(n) == 2,
        n is InIntHash ==> filter_tree::cost_of(n) == 4,
        n is EqStr || n is NeStr ==> filter_tree::cost_of(n) == 5,
        n is InIntLinear || n is InStrHash || n is StartsWith || n is EndsWith
            ==> filter_tree::cost_of(n) == 8,
        n is InStrLinear || n is Contains ==> filter_tree::cost_of(n) == 15,
        n is ContainsAny ==> filter_tree::cost_of(n) == 35,
        n is AhoContains ==> filter_tree::cost_of(n) == 40,
        n is Matches ==> filter_tree::cost_of(n) == 50,
        n is FnCmpResult ==> filter_tree::cost_of(n) == 80,
        n is ExistsIntList || n is ExistsStrEq || n is ExistsIntSet || n is ExistsMapInt
            || n is MapIndexStrEq || n is MapIndexIntList ==> filter_tree::cost_of(n) == 100,
    decreases a,
{
    lemma_cost_positive(n);
}

proof fn lemma_cost_positive(n: FilterNode)
    ensures
        filter_tree::cost_of(n) >= 1,
    decreases n,
{
    match n {
        FilterNode::And(a, b) => {
            lemma_cost_positive(*a);
            lemma_cost_positive(*b);
        },
        FilterNode::Or(a, b) => {
            lemma_cost_positive(*a);
            lemma_cost_positive(*b);
        },
        FilterNode::Not(a) => {
            lemma_cost_positive(*a);
        },
        _ => {},
    }
}

/// The first filter of a batch that holds: its name comes out, none before it holds, and where
/// none comes out none holds.
pub proof fn law_first_match(filters: Seq<(Box<FilterNode>, String)>, vars: Seq<Val>, from: int)
    requires
        0 <= from <= filters.len(),
    ensures
        match filter_tree::first_match(filters, vars, from) {
            Some(name) => exists|k: int| #[trigger] matches_first(filters, vars, from, k)
                && name == filters[k].1@,
            None => forall|k: int|
                from <= k < filters.len() ==> !filter_tree::holds(*(#[trigger] filters[k]).0, vars),
        },
    decreases filters.len() - from,
{
    if from < filters.len() {
        if filter_tree::holds(*filters[from].0, vars) {
            assert(matches_first(filters, vars, from, from));
        } else {
            law_first_match(filters, vars, from + 1);
            match filter_tree::first_match(filters, vars, from + 1) {
                Some(name) => {
                    let k = choose|k: int| #[trigger] matches_first(filters, vars, from + 1, k)
                        && name == filters[k].1@;
                    assert(matches_first(filters, vars, from, k));
                },
                None => {},
            }
        }
    }
}

/// A filter holds, and none from a position on before it.
pub open spec fn matches_first(
    filters: Seq<(Box<FilterNode>, String)>,
    vars: Seq<Val>,
    from: int,
    k: int,
) -> bool {
    &&& from <= k < filters.len()
    &&& filter_tree::holds(*filters[k].0, vars)
    &&& forall|j: int| from <= j < k ==> !filter_tree::holds(*(#[trigger] filters[j]).0, vars)
}

/// What a batch says of a filter is its name and whether it holds.
pub proof fn law_batch_verdict(f: (Box<FilterNode>, String), vars: Seq<Val>)
    ensures
        filter_tree::verdict(f, vars).0 == f.1@,
        filter_tree::verdict(f, vars).1 == filter_tree::holds(*f.0, vars),
{
}

} // verus!
