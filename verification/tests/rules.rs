//! Filter trees, batches of them, rule sets and range sets.

use cel::objects::{Key, Value, ValueMap};
use cel::vm::filter_tree::{
    FilterBatch, FilterNode, FnCallPtr, FnTable, I64Expr, IntCmp, SmartBatch, StrExpr,
};
use cel::vm::filter_tree_compiler::{compile_closure, compile_filter_tree};
use cel::common::ast::{CallExpr, Expr, IdedExpr, LiteralValue};
use cel::error::{CallSite, HostRequest, HostTable};
use cel::vm::range_set::RangeSet;
use cel::vm::ruleset::{ACRule, FieldPartitionedRuleset, IntRule, StrRule};
use std::sync::Arc;

fn text(s: &str) -> Value {
    Value::String(Arc::new(s.to_string()))
}

fn node(expr: Expr) -> IdedExpr {
    IdedExpr { id: 0, expr }
}

fn number(i: i64) -> IdedExpr {
    node(Expr::Literal(LiteralValue::Int(i)))
}

fn string(s: &str) -> IdedExpr {
    node(Expr::Literal(LiteralValue::String(s.to_string())))
}

fn name(n: &str) -> IdedExpr {
    node(Expr::Ident(n.to_string()))
}

fn call(f: &str, target: Option<IdedExpr>, args: Vec<IdedExpr>) -> IdedExpr {
    node(Expr::Call(CallExpr {
        func_name: f.to_string(),
        target: target.map(Box::new),
        args,
        resolved_op: None,
    }))
}

fn contains(word: &str) -> IdedExpr {
    call("contains", Some(name("path")), vec![string(word)])
}

#[test]
fn nodes_test_integers() {
    let n = FilterNode::AddLt { idx: 0, arith: 100, cmp: 1024 };
    assert!(n.eval(&[Value::Int(923)]));
    assert!(!n.eval(&[Value::Int(924)]));
    assert!(!n.eval(&[text("x")]));
    assert!(n.eval_fast(&[Value::Int(0)]));
    assert!(n.eval_fast_typed(&[0], &[String::new()]));
    assert!(FilterNode::EqInt { idx: 0, val: 80 }.eval(&[Value::Int(80)]));
    assert!(!FilterNode::EqInt { idx: 0, val: 80 }.eval(&[Value::Null]));
}

#[test]
fn nodes_test_strings() {
    let has = FilterNode::ContainsAny {
        idx: 0,
        needles: vec!["x".to_string(), "api".to_string()],
    };
    assert!(has.eval(&[text("/api")]));
    assert!(!has.eval(&[text("/index")]) == false);
    assert!(!has.eval(&[text("/home")]));
    assert!(FilterNode::StartsWith { idx: 0, prefix: "/a".to_string() }.eval(&[text("/api")]));
    assert!(!FilterNode::EndsWith { idx: 0, suffix: "/a".to_string() }.eval(&[text("/api")]));
    assert!(FilterNode::NeStr { idx: 0, val: "b".to_string() }.eval(&[text("a")]));
}

#[test]
fn integer_expressions_wrap() {
    let e = I64Expr::Add(Box::new(I64Expr::Var(0)), Box::new(I64Expr::Literal(1)));
    assert_eq!(e.eval(&[Value::Int(i64::MAX)]), i64::MIN);
    assert_eq!(e.eval(&[Value::Null]), 1);
    let size = I64Expr::StrLen(Box::new(StrExpr::Concat(
        Box::new(StrExpr::Var(0)),
        Box::new(StrExpr::Literal("\u{e9}".to_string())),
    )));
    assert_eq!(size.eval(&[text("ab")]), 4);
}

#[test]
fn reordering_puts_the_cheap_side_first_and_changes_nothing() {
    let mut n = FilterNode::And(
        Box::new(FilterNode::Contains { idx: 0, substring: "a".to_string() }),
        Box::new(FilterNode::EqInt { idx: 1, val: 3 }),
    );
    let vars = [text("cat"), Value::Int(3)];
    let before = n.eval(&vars);
    n.optimize_order();
    assert!(matches!(&n, FilterNode::And(a, _) if matches!(**a, FilterNode::EqInt { .. })));
    assert_eq!(n.eval(&vars), before);
    let again = format!("{:?}", n);
    n.optimize_order();
    assert_eq!(format!("{:?}", n), again);
    assert!(!n.needs_values());
}

#[test]
fn typed_closures_agree_with_the_tree() {
    let n = FilterNode::Or(
        Box::new(FilterNode::GeInt { idx: 0, val: 10 }),
        Box::new(FilterNode::EqStr { idx: 1, val: "GET".to_string() }),
    );
    let c = compile_closure(&n);
    for (i, s) in [(3i64, "GET"), (11, "POST"), (3, "POST")] {
        let want = n.eval(&[Value::Int(i), text(s)]);
        let strings = vec![String::new(), s.to_string()];
        assert_eq!(c.eval_bool(&[i, 0], &strings), want);
        assert_eq!(c.eval_value(&[i, 0], &strings), Ok(Value::Bool(want)));
    }
    assert!(c.as_bool().is_some());
    assert!(c.as_i64().is_none());
}

#[test]
fn batches_name_what_matches() {
    let rules = || {
        vec![
            (
                Box::new(FilterNode::Contains { idx: 1, substring: "x".to_string() }),
                "slow".to_string(),
            ),
            (Box::new(FilterNode::EqInt { idx: 0, val: 1 }), "quick".to_string()),
            (Box::new(FilterNode::EqInt { idx: 0, val: 2 }), "never".to_string()),
        ]
    };
    let vars = [Value::Int(1), text("xyz")];
    let plain = FilterBatch { filters: rules() };
    assert_eq!(plain.eval_any(&vars), Some("slow".to_string()));
    assert_eq!(
        plain.eval_all(&vars),
        vec![
            ("slow".to_string(), true),
            ("quick".to_string(), true),
            ("never".to_string(), false),
        ]
    );
    let mut out = [false; 4];
    out[3] = true;
    plain.eval_into(&vars, &mut out);
    assert_eq!(out, [true, true, false, true]);
    let smart = SmartBatch::new(rules());
    assert_eq!(smart.eval_any(&vars), Some("quick".to_string()));
    assert_eq!(smart.eval_any(&[Value::Int(3), text("a")]), None);
    assert_eq!(smart.eval_all(&vars).len(), 3);
}

#[test]
fn many_words_become_one_scan() {
    let words = ["alpha", "beta", "gamma", "delta", "epsilon"];
    let mut e = contains(words[0]);
    for w in &words[1..] {
        e = call("_||_", None, vec![e, contains(w)]);
    }
    let t = compile_filter_tree(&e, None).unwrap();
    assert!(t.eval(&[text("so delta it is")]));
    assert!(!t.eval(&[text("none of them")]));
    let mut e = contains(words[0]);
    for w in &words[1..] {
        e = call("_&&_", None, vec![e, contains(w)]);
    }
    let t = compile_filter_tree(&e, None).unwrap();
    assert!(t.eval(&[text("alpha beta gamma delta epsilon")]));
    assert!(!t.eval(&[text("alpha beta gamma delta")]));
}

#[test]
fn regular_expressions_in_filters() {
    let e = call("matches", Some(name("path")), vec![string("^/v[0-9]+$")]);
    let t = compile_filter_tree(&e, None).unwrap();
    assert!(t.eval(&[text("/v12")]));
    assert!(!t.eval(&[text("/v")]));
    let bad = call("matches", Some(name("path")), vec![string("(")]);
    assert!(compile_filter_tree(&bad, None).is_err());
}

#[test]
fn exchanged_sides_of_a_comparison() {
    let t = compile_filter_tree(&call("_<_", None, vec![number(80), name("port")]), None).unwrap();
    assert!(t.eval(&[Value::Int(81)]));
    assert!(!t.eval(&[Value::Int(80)]));
}

#[test]
fn registered_functions_in_filters() {
    let mut host = HostTable::new();
    host.add(
        HostRequest::Call(CallSite::root(), "score".to_string(), None, vec![Value::Int(4)]),
        Ok(Value::Int(16)),
    );
    let mut table = FnTable::new();
    table.add(FnCallPtr { name: "score".to_string(), host });
    let e = call("_>_", None, vec![call("score", None, vec![name("x")]), number(10)]);
    let t = compile_filter_tree(&e, Some(&table)).unwrap();
    assert!(t.needs_values);
    assert!(t.lacking(&[Value::Int(4)]).is_none());
    assert!(t.eval(&[Value::Int(4)]));
}

#[test]
fn a_tree_tells_what_the_host_has_to_answer() {
    let mut table = FnTable::new();
    table.add(FnCallPtr { name: "score".to_string(), host: HostTable::new() });
    let score = || call("score", None, vec![name("x")]);
    let cases = [
        (call("_>_", None, vec![score(), number(10)]), true),
        (call("_<_", None, vec![number(10), score()]), true),
        (call("_<_", None, vec![score(), number(10)]), false),
        (call("_>_", None, vec![number(10), score()]), false),
    ];
    for (e, want) in cases {
        let mut t = compile_filter_tree(&e, Some(&table)).unwrap();
        let vars = [Value::Int(5)];
        let request = t.lacking(&vars).unwrap();
        let name = "score".to_string();
        let asked = HostRequest::Call(CallSite::root(), name, None, vec![Value::Int(5)]);
        assert!(request == asked);
        t.add_answer(&request, &Ok(Value::Int(25)));
        assert!(t.lacking(&vars).is_none());
        assert_eq!(t.eval(&vars), want);
        assert!(t.lacking(&[Value::Int(6)]).is_some());
        t.clear_answers();
        assert!(t.lacking(&vars) == Some(request));
    }
}

#[test]
fn every_call_in_a_tree_is_made() {
    let mut table = FnTable::new();
    table.add(FnCallPtr { name: "next".to_string(), host: HostTable::new() });
    let is = |i: i64| call("_==_", None, vec![call("next", None, vec![name("x")]), number(i)]);
    for (e, calls, want) in [
        (call("_&&_", None, vec![is(1), is(2)]), 2, true),
        (call("_&&_", None, vec![is(1), is(1)]), 2, false),
        (call("_||_", None, vec![is(2), call("!_", None, vec![is(2)])]), 2, false),
        (call("_||_", None, vec![is(1), is(2)]), 1, true),
    ] {
        let mut t = compile_filter_tree(&e, Some(&table)).unwrap();
        let vars = [Value::Int(5)];
        let mut made = 0;
        while let Some(request) = t.lacking(&vars) {
            made += 1;
            t.add_answer(&request, &Ok(Value::Int(made)));
        }
        assert_eq!((made, t.eval(&vars)), (calls, want));
    }
}

#[test]
fn what_decides_before_the_host_is_asked() {
    let mut table = FnTable::new();
    table.add(FnCallPtr { name: "score".to_string(), host: HostTable::new() });
    let score = call("_>_", None, vec![call("score", None, vec![name("x")]), number(10)]);
    let small = call("_<_", None, vec![name("x"), number(3)]);
    let e = call("_&&_", None, vec![small, score]);
    let t = compile_filter_tree(&e, Some(&table)).unwrap();
    assert!(t.lacking(&[Value::Int(4)]).is_none());
    assert!(!t.eval(&[Value::Int(4)]));
    assert!(t.lacking(&[Value::Int(2)]).is_some());
}

#[test]
fn existence_in_lists_and_maps() {
    let n = FilterNode::ExistsIntList { collection_idx: 0, cmp_val: 5, cmp: IntCmp::Gt };
    assert!(n.eval(&[Value::List(vec![Value::Int(1), Value::Int(7)])]));
    assert!(!n.eval(&[Value::List(Vec::new())]));
    let mut m = ValueMap::new();
    m.insert(Key::String("a".to_string()), Value::Int(9));
    let n = FilterNode::ExistsMapInt { collection_idx: 0, cmp_val: 9, cmp: IntCmp::Eq };
    assert!(n.eval(&[Value::Dict(m)]));
    assert!(n.needs_values());
}

#[test]
fn rules_are_counted_and_written_in_order() {
    let set = FieldPartitionedRuleset {
        int_rules: vec![
            IntRule::Gt { var_idx: 0, val: 10 },
            IntRule::InSet { var_idx: 0, vals: vec![80, 443] },
            IntRule::Eq { var_idx: 9, val: 0 },
        ],
        str_rules: vec![
            StrRule::Eq { var_idx: 1, val: "/api".to_string() },
            StrRule::StartsWith { var_idx: 1, prefix: "/".to_string() },
            StrRule::EndsWith { var_idx: 0, suffix: "/".to_string() },
        ],
        ac_rules: vec![
            ACRule::new(1, vec!["ap".to_string(), "pi".to_string()], 1).unwrap(),
            ACRule::new(1, vec!["x".to_string()], 0).unwrap(),
        ],
        complex_rules: vec![FilterNode::Not(Box::new(FilterNode::EqInt { idx: 0, val: 1 }))],
        var_names: vec!["port".to_string(), "path".to_string()],
    };
    let vars = [Value::Int(80), text("/api")];
    let want = [true, true, false, true, true, false, true, false, true];
    let mut out = [false; 9];
    set.eval_into(&vars, &mut out);
    assert_eq!(out, want);
    assert_eq!(set.eval_count(&vars), 6);
}

#[test]
fn all_words_of_a_filter_are_found() {
    let n = |words: &[&str], min: usize| {
        let word = |w: &&str| call("contains", Some(name("s")), vec![string(w)]);
        let join = if min > 1 { "_&&_" } else { "_||_" };
        let mut e = word(&words[0]);
        for w in &words[1..] {
            e = call(join, None, vec![e, word(w)]);
        }
        compile_filter_tree(&e, None).unwrap()
    };
    assert!(n(&["ab", "bc"], 2).eval(&[text("abc")]));
    assert!(n(&["ab", "abc", "b"], 3).eval(&[text("xabcx")]));
    assert!(!n(&["ab", "bd"], 2).eval(&[text("abc")]));
    assert!(n(&["bd", "bc"], 1).eval(&[text("abc")]));
    let many: Vec<String> = (10..99).map(|k| k.to_string()).collect();
    let words: Vec<&str> = many.iter().map(|s| s.as_str()).collect();
    let all: String = many.concat();
    assert!(n(&words, many.len()).eval(&[text(&all)]));
    assert!(!n(&words, many.len()).eval(&[text(&all[..100])]));
}

#[test]
fn words_of_a_rule_are_found_without_overlap() {
    let rule = ACRule::new(0, vec!["ab".to_string(), "bc".to_string()], 2).unwrap();
    assert!(!rule.eval(&[text("abc")]));
    assert!(rule.eval(&[text("ab bc")]));
    assert!(!rule.eval(&[Value::Null]));
    assert!(!rule.eval(&[]));
}

#[test]
fn ranges_are_merged() {
    let s = RangeSet::from(vec![20i64..=30, 1..=5, 4..=9, 25..=26, 31..=31]);
    assert_eq!(s.len(), 3);
    assert!(!s.is_empty());
    for i in 0i64..40 {
        let want = (1..=9).contains(&i) || (20..=30).contains(&i) || i == 31;
        assert_eq!(s.contains(&i), want);
    }
    let empty: RangeSet<u8> = RangeSet::from(Vec::new());
    assert!(empty.is_empty());
    assert!(!empty.contains(&0));
    let points = RangeSet::from_iter(vec![5u16, 3, 5, 4]);
    assert_eq!(points.len(), 3);
    assert!(points.contains(&4) && !points.contains(&6));
    assert_eq!(RangeSet::from(vec![5..=7, 1..=3, 2..=4]).len(), 2);
    assert_eq!(RangeSet::from(vec![1..=9, 2..=3, 4..=4]).len(), 1);
    assert_eq!(RangeSet::from(vec![1..=3, 4..=6]).len(), 2);
    assert_eq!(RangeSet::from_iter(vec![7, 7, 7]).len(), 1);
}
