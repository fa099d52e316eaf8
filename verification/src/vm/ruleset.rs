//! Rules grouped by what they read.

use crate::objects;
use crate::objects::{Val, Value};
use crate::patterns;
use crate::patterns::WordSet;
use crate::strings;
use crate::vm::filter_tree;
use crate::vm::filter_tree::FilterNode;
use std::sync::Arc;
use vstd::prelude::*;

verus! {

/// A rule on one integer variable.
#[derive(Debug)]
pub enum IntRule {
    Eq { var_idx: usize, val: i64 },
    Ne { var_idx: usize, val: i64 },
    Lt { var_idx: usize, val: i64 },
    Le { var_idx: usize, val: i64 },
    Gt { var_idx: usize, val: i64 },
    Ge { var_idx: usize, val: i64 },
    InSet { var_idx: usize, vals: Vec<i64> },
}

/// The variable of a rule.
pub open spec fn int_rule_var(r: IntRule) -> usize {
    match r {
        IntRule::Eq { var_idx, .. } => var_idx,
        IntRule::Ne { var_idx, .. } => var_idx,
        IntRule::Lt { var_idx, .. } => var_idx,
        IntRule::Le { var_idx, .. } => var_idx,
        IntRule::Gt { var_idx, .. } => var_idx,
        IntRule::Ge { var_idx, .. } => var_idx,
        IntRule::InSet { var_idx, .. } => var_idx,
    }
}

/// What a rule says of an integer.
pub open spec fn int_rule_test(r: IntRule, i: i64) -> bool {
    match r {
        IntRule::Eq { val, .. } => i == val,
        IntRule::Ne { val, .. } => i != val,
        IntRule::Lt { val, .. } => i < val,
        IntRule::Le { val, .. } => i <= val,
        IntRule::Gt { val, .. } => i > val,
        IntRule::Ge { val, .. } => i >= val,
        IntRule::InSet { vals, .. } => vals@.contains(i),
    }
}

/// A rule holds where its variable is an integer of which it says so.
pub open spec fn int_rule_holds(r: IntRule, vars: Seq<Val>) -> bool {
    &&& int_rule_var(r) < vars.len()
    &&& vars[int_rule_var(r) as int] matches Val::Int(i)
    &&& int_rule_test(r, i)
}

impl IntRule {
    /// Whether the rule holds of the variables.
    pub fn eval(&self, vars: &[Value]) -> (r: bool)
        ensures
            r == int_rule_holds(*self, objects::values_view(vars@)),
    {
        let at = self.var_idx();
        if at >= vars.len() {
            return false;
        }
        let i = match &vars[at] {
            Value::Int(i) => *i,
            _ => {
                return false;
            },
        };
        match self {
            IntRule::Eq { val, .. } => i == *val,
            IntRule::Ne { val, .. } => i != *val,
            IntRule::Lt { val, .. } => i < *val,
            IntRule::Le { val, .. } => i <= *val,
            IntRule::Gt { val, .. } => i > *val,
            IntRule::Ge { val, .. } => i >= *val,
            IntRule::InSet { vals, .. } => int_among(vals, i),
        }
    }

    fn var_idx(&self) -> (r: usize)
        ensures
            r == int_rule_var(*self),
    {
        match self {
            IntRule::Eq { var_idx, .. } | IntRule::Ne { var_idx, .. }
            | IntRule::Lt { var_idx, .. } | IntRule::Le { var_idx, .. }
            | IntRule::Gt { var_idx, .. } | IntRule::Ge { var_idx, .. }
            | IntRule::InSet { var_idx, .. } => *var_idx,
        }
    }
}

fn int_among(vals: &Vec<i64>, i: i64) -> (r: bool)
    ensures
        r == vals@.contains(i),
{
    let mut k: usize = 0;
    while k < vals.len()
        invariant
            k <= vals@.len(),
            forall|j: int| 0 <= j < k ==> #[trigger] vals@[j] != i,
        decreases vals@.len() - k,
    {
        if vals[k] == i {
            return true;
        }
        k += 1;
    }
    false
}

/// A rule on one string variable.
#[derive(Debug)]
pub enum StrRule {
    Eq { var_idx: usize, val: String },
    StartsWith { var_idx: usize, prefix: String },
    EndsWith { var_idx: usize, suffix: String },
}

/// The variable of a rule.
pub open spec fn str_rule_var(r: StrRule) -> usize {
    match r {
        StrRule::Eq { var_idx, .. } => var_idx,
        StrRule::StartsWith { var_idx, .. } => var_idx,
        StrRule::EndsWith { var_idx, .. } => var_idx,
    }
}

/// What a rule says of a string.
pub open spec fn str_rule_test(r: StrRule, s: Seq<char>) -> bool {
    match r {
        StrRule::Eq { val, .. } => s == val@,
        StrRule::StartsWith { prefix, .. } => prefix@.is_prefix_of(s),
        StrRule::EndsWith { suffix, .. } => suffix@.is_suffix_of(s),
    }
}

/// A rule holds where its variable is a string of which it says so.
pub open spec fn str_rule_holds(r: StrRule, vars: Seq<Val>) -> bool {
    &&& str_rule_var(r) < vars.len()
    &&& vars[str_rule_var(r) as int] matches Val::String(s)
    &&& str_rule_test(r, s)
}

impl StrRule {
    /// Whether the rule holds of the variables.
    pub fn eval(&self, vars: &[Value]) -> (r: bool)
        ensures
            r == str_rule_holds(*self, objects::values_view(vars@)),
    {
        let at = self.var_idx();
        if at >= vars.len() {
            return false;
        }
        let s = match &vars[at] {
            Value::String(s) => s.as_str(),
            _ => {
                return false;
            },
        };
        match self {
            StrRule::Eq { val, .. } => strings::str_eq(s, val.as_str()),
            StrRule::StartsWith { prefix, .. } => strings::str_starts_with(s, prefix.as_str()),
            StrRule::EndsWith { suffix, .. } => strings::str_ends_with(s, suffix.as_str()),
        }
    }

    fn var_idx(&self) -> (r: usize)
        ensures
            r == str_rule_var(*self),
    {
        match self {
            StrRule::Eq { var_idx, .. } | StrRule::StartsWith { var_idx, .. }
            | StrRule::EndsWith { var_idx, .. } => *var_idx,
        }
    }
}

/// A rule on the words in one string variable.
#[derive(Debug)]
pub struct ACRule {
    pub var_idx: usize,
    pub automaton: Arc<WordSet>,
    pub min_matches: usize,
}

/// The numbers of the found words that are below 64.
pub open spec fn low_finds(finds: Seq<u64>) -> Set<u64> {
    finds.to_set().filter(|p: u64| p < 64)
}

/// A rule holds where a scan of its variable, a string, finds one of its first 64 words, and
/// as many different ones as it asks for.
pub open spec fn ac_rule_holds(r: ACRule, vars: Seq<Val>) -> bool {
    &&& r.var_idx < vars.len()
    &&& vars[r.var_idx as int] matches Val::String(s)
    &&& {
        let n = low_finds(patterns::word_finds(r.automaton@, s)).len();
        n >= 1 && n >= r.min_matches
    }
}

/// How many different words among the first 64 a scan finds.
fn low_words(ac: &WordSet, text: &str) -> (r: usize)
    ensures
        r == low_finds(patterns::word_finds(ac@, text@)).len(),
{
    let finds = ac.finds(text);
    let mut seen: Vec<u64> = Vec::new();
    let mut k: usize = 0;
    assert(low_finds(finds@.subrange(0, 0)) =~= Set::<u64>::empty());
    assert(seen@.to_set() =~= Set::<u64>::empty());
    while k < finds.len()
        invariant
            k <= finds@.len(),
            seen@.no_duplicates(),
            seen@.to_set() == low_finds(finds@.subrange(0, k as int)),
        decreases finds@.len() - k,
    {
        let pid = finds[k];
        let ghost before = finds@.subrange(0, k as int);
        let ghost after = finds@.subrange(0, k + 1);
        let ghost seen_before = seen@;
        assert(after =~= before.push(pid));
        proof {
            assert forall|p: u64| low_finds(after).contains(p) <==> (low_finds(before).contains(p)
                || (p == pid && p < 64)) by {
                if after.contains(p) && p != pid {
                    let j = choose|j: int| 0 <= j < after.len() && after[j] == p;
                    assert(before[j] == p);
                }
                if before.contains(p) {
                    let j = choose|j: int| 0 <= j < before.len() && before[j] == p;
                    assert(after[j] == p);
                }
                assert(after[k as int] == pid);
            }
        }
        if pid < 64 && !id_seen(&seen, pid) {
            seen.push(pid);
            proof {
                assert forall|p: u64| seen@.to_set().contains(p) <==> (
                seen_before.to_set().contains(p) || p == pid) by {
                    if seen_before.contains(p) {
                        let j = choose|j: int|
                            0 <= j < seen_before.len() && seen_before[j] == p;
                        assert(seen@[j] == p);
                    }
                    assert(seen@[seen_before.len() as int] == pid);
                }
            }
        } else if pid < 64 {
            assert(seen@.to_set().contains(pid));
        }
        assert(seen@.to_set() =~= low_finds(after));
        k += 1;
    }
    assert(finds@.subrange(0, k as int) =~= finds@);
    proof {
        seen@.unique_seq_to_set();
    }
    seen.len()
}

fn id_seen(seen: &Vec<u64>, pid: u64) -> (r: bool)
    ensures
        r == seen@.contains(pid),
{
    let mut k: usize = 0;
    while k < seen.len()
        invariant
            k <= seen@.len(),
            forall|j: int| 0 <= j < k ==> seen@[j] != pid,
        decreases seen@.len() - k,
    {
        if seen[k] == pid {
            assert(seen@[k as int] == pid);
            return true;
        }
        k += 1;
    }
    false
}

impl ACRule {
    /// A rule on words. There is none where no automaton can be built for them.
    pub fn new(var_idx: usize, words: Vec<String>, min_matches: usize) -> (r: Option<ACRule>)
        ensures
            r is Some == patterns::word_set_fits(objects::texts(words@)),
            r matches Some(rule) ==> rule.var_idx == var_idx && rule.automaton@ == objects::texts(
                words@,
            ) && rule.min_matches == min_matches,
    {
        match WordSet::new(words) {
            Some(set) => Some(ACRule { var_idx, automaton: Arc::new(set), min_matches }),
            None => None,
        }
    }

    /// Whether the rule holds of the variables.
    pub fn eval(&self, vars: &[Value]) -> (r: bool)
        ensures
            r == ac_rule_holds(*self, objects::values_view(vars@)),
    {
        if self.var_idx >= vars.len() {
            return false;
        }
        match &vars[self.var_idx] {
            Value::String(s) => {
                let n = low_words(&*self.automaton, s.as_str());
                n >= 1 && n >= self.min_matches
            },
            _ => false,
        }
    }
}

/// Rules, grouped by what they read.
#[derive(Debug)]
pub struct FieldPartitionedRuleset {
    pub int_rules: Vec<IntRule>,
    pub str_rules: Vec<StrRule>,
    pub ac_rules: Vec<ACRule>,
    /// Rules on several variables, or of another structure.
    pub complex_rules: Vec<FilterNode>,
    /// The names of the variables, in the order of their indices.
    pub var_names: Vec<String>,
}

/// What the rules say, in their order: those on integers, on strings and on words, then the
/// rest.
pub open spec fn verdicts(s: FieldPartitionedRuleset, vars: Seq<Val>) -> Seq<bool> {
    s.int_rules@.map_values(|r: IntRule| int_rule_holds(r, vars)) + s.str_rules@.map_values(
        |r: StrRule| str_rule_holds(r, vars),
    ) + s.ac_rules@.map_values(|r: ACRule| ac_rule_holds(r, vars)) + s.complex_rules@.map_values(
        |r: FilterNode| filter_tree::holds(r, vars),
    )
}

/// How many of the verdicts are that the rule holds.
pub open spec fn count_true(s: Seq<bool>) -> nat
    decreases s.len(),
{
    if s.len() == 0 {
        0
    } else {
        count_true(s.drop_last()) + if s.last() {
            1nat
        } else {
            0
        }
    }
}

proof fn lemma_count_push(s: Seq<bool>, k: int)
    requires
        0 <= k < s.len(),
    ensures
        count_true(s.subrange(0, k + 1)) == count_true(s.subrange(0, k)) + if s[k] {
            1nat
        } else {
            0
        },
{
    assert(s.subrange(0, k + 1).drop_last() =~= s.subrange(0, k));
}

proof fn lemma_count_bound(s: Seq<bool>)
    ensures
        count_true(s) <= s.len(),
    decreases s.len(),
{
    if s.len() > 0 {
        lemma_count_bound(s.drop_last());
    }
}

/// The rules of another structure can be evaluated on the variables.
pub open spec fn complex_ready(s: FieldPartitionedRuleset, vars: Seq<Val>) -> bool {
    forall|k: int|
        0 <= k < s.complex_rules@.len() ==> filter_tree::in_range(
            #[trigger] s.complex_rules@[k],
            vars.len(),
        ) && filter_tree::fits(s.complex_rules@[k], vars)
}

impl FieldPartitionedRuleset {
    /// How many rules there are.
    pub open spec fn size(&self) -> nat {
        self.int_rules@.len() + self.str_rules@.len() + self.ac_rules@.len()
            + self.complex_rules@.len()
    }

    /// What one rule says, by its position among all rules.
    fn verdict(&self, at: usize, vars: &[Value]) -> (r: bool)
        requires
            at < self.size(),
            complex_ready(*self, objects::values_view(vars@)),
        ensures
            r == verdicts(*self, objects::values_view(vars@))[at as int],
    {
        let ghost vs = objects::values_view(vars@);
        let mut k: usize = at;
        if k < self.int_rules.len() {
            return self.int_rules[k].eval(vars);
        }
        k -= self.int_rules.len();
        if k < self.str_rules.len() {
            return self.str_rules[k].eval(vars);
        }
        k -= self.str_rules.len();
        if k < self.ac_rules.len() {
            return self.ac_rules[k].eval(vars);
        }
        k -= self.ac_rules.len();
        assert(vs.len() == vars@.len());
        self.complex_rules[k].eval(vars)
    }

    /// How many rules hold of the variables.
    pub fn eval_count(&self, vars: &[Value]) -> (r: usize)
        requires
            complex_ready(*self, objects::values_view(vars@)),
            self.size() <= usize::MAX,
        ensures
            r == count_true(verdicts(*self, objects::values_view(vars@))),
    {
        let ghost all = verdicts(*self, objects::values_view(vars@));
        let n = self.int_rules.len() + self.str_rules.len() + self.ac_rules.len()
            + self.complex_rules.len();
        let mut count: usize = 0;
        let mut k: usize = 0;
        while k < n
            invariant
                k <= n,
                n == self.size(),
                n == all.len(),
                count <= k,
                all == verdicts(*self, objects::values_view(vars@)),
                complex_ready(*self, objects::values_view(vars@)),
                count == count_true(all.subrange(0, k as int)),
            decreases n - k,
        {
            proof {
                lemma_count_push(all, k as int);
            }
            if self.verdict(k, vars) {
                count += 1;
            }
            k += 1;
        }
        assert(all.subrange(0, k as int) =~= all);
        count
    }

    /// Writes what the rules say into a slice that has room for it.
    pub fn eval_into(&self, vars: &[Value], out: &mut [bool])
        requires
            complex_ready(*self, objects::values_view(vars@)),
            self.size() <= old(out)@.len(),
        ensures
            final(out)@ == verdicts(*self, objects::values_view(vars@)) + old(out)@.subrange(
                self.size() as int,
                old(out)@.len() as int,
            ),
    {
        let ghost all = verdicts(*self, objects::values_view(vars@));
        let ghost before = out@;
        let room = out.len();
        let n = self.int_rules.len() + self.str_rules.len() + self.ac_rules.len()
            + self.complex_rules.len();
        let mut k: usize = 0;
        while k < n
            invariant
                k <= n,
                n == self.size(),
                n == all.len(),
                n <= before.len(),
                out@.len() == before.len(),
                all == verdicts(*self, objects::values_view(vars@)),
                complex_ready(*self, objects::values_view(vars@)),
                forall|j: int|
                    0 <= j < before.len() ==> #[trigger] out@[j] == (if j < k {
                        all[j]
                    } else {
                        before[j]
                    }),
            decreases n - k,
        {
            let b = self.verdict(k, vars);
            out[k] = b;
            k += 1;
        }
        assert(out@ =~= all + before.subrange(n as int, before.len() as int));
    }
}

/// The number of rules that hold is the number of times that `true` is written.
pub proof fn law_count_verdicts(s: Seq<bool>)
    ensures
        count_true(s) == s.to_multiset().count(true),
        count_true(s) <= s.len(),
    decreases s.len(),
{
    lemma_count_bound(s);
    if s.len() > 0 {
        law_count_verdicts(s.drop_last());
        s.drop_last().to_multiset_ensures();
        assert(s =~= s.drop_last().push(s.last()));
    } else {
        s.to_multiset_ensures();
        assert(!s.contains(true));
    }
}

} // verus!
