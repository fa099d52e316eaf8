//! Expressions through the compiler and through filters.

use cel::common::ast::{
    CallExpr, ComprehensionExpr, EntryExpr, Expr, Expression, IdedEntryExpr, IdedExpr, ListExpr,
    LiteralValue, MapEntryExpr, MapExpr, SelectExpr,
};
use cel::context::Context;
use cel::error::ExecutionError;
use cel::fast::{EvalContext, FieldType, Filter, Schema};
use cel::objects::{Key, Value, ValueMap};
use cel::vm::compiler::compile_expression;
use std::sync::Arc;

/// A parser for the expressions of these tests.
struct Parser {
    chars: Vec<char>,
    at: usize,
}

fn node(expr: Expr) -> IdedExpr {
    IdedExpr { id: 0, expr }
}

fn call(name: &str, target: Option<IdedExpr>, args: Vec<IdedExpr>) -> IdedExpr {
    node(Expr::Call(CallExpr {
        func_name: name.to_string(),
        target: target.map(Box::new),
        args,
        resolved_op: None,
    }))
}

fn ident(name: &str) -> IdedExpr {
    node(Expr::Ident(name.to_string()))
}

fn boolean(b: bool) -> IdedExpr {
    node(Expr::Literal(LiteralValue::Boolean(b)))
}

const LEVELS: [&[(&str, &str)]; 4] = [
    &[("||", "_||_")],
    &[("&&", "_&&_")],
    &[
        ("==", "_==_"),
        ("!=", "_!=_"),
        ("<=", "_<=_"),
        (">=", "_>=_"),
        ("<", "_<_"),
        (">", "_>_"),
        ("in ", "@in"),
    ],
    &[("+", "_+_"), ("-", "_-_")],
];

impl Parser {
    fn spaces(&mut self) {
        while self.at < self.chars.len() && self.chars[self.at] == ' ' {
            self.at += 1;
        }
    }

    fn looking_at(&self, s: &str) -> bool {
        let want: Vec<char> = s.chars().collect();
        self.at + want.len() <= self.chars.len()
            && self.chars[self.at..self.at + want.len()] == want[..]
    }

    fn eat(&mut self, s: &str) -> bool {
        self.spaces();
        if self.looking_at(s) {
            self.at += s.chars().count();
            true
        } else {
            false
        }
    }

    fn must(&mut self, s: &str) {
        assert!(self.eat(s), "expected {} at {}", s, self.at);
    }

    fn expr(&mut self) -> IdedExpr {
        let cond = self.level(0);
        if self.eat("?") {
            let a = self.expr();
            self.must(":");
            let b = self.expr();
            call("_?_:_", None, vec![cond, a, b])
        } else {
            cond
        }
    }

    fn level(&mut self, n: usize) -> IdedExpr {
        if n == LEVELS.len() {
            return self.product();
        }
        let mut left = self.level(n + 1);
        'outer: loop {
            for (text, name) in LEVELS[n] {
                if self.eat(text) {
                    let right = self.level(n + 1);
                    left = call(name, None, vec![left, right]);
                    continue 'outer;
                }
            }
            return left;
        }
    }

    fn product(&mut self) -> IdedExpr {
        let mut left = self.unary();
        loop {
            let name = if self.eat("*") {
                "_*_"
            } else if self.eat("/") {
                "_/_"
            } else if self.eat("%") {
                "_%_"
            } else {
                return left;
            };
            let right = self.unary();
            left = call(name, None, vec![left, right]);
        }
    }

    fn unary(&mut self) -> IdedExpr {
        self.spaces();
        if self.looking_at("!") && !self.looking_at("!=") {
            self.must("!");
            let e = self.unary();
            return call("!_", None, vec![e]);
        }
        if self.looking_at("-") {
            if self.at + 1 < self.chars.len() && self.chars[self.at + 1].is_ascii_digit() {
                return self.postfix();
            }
            self.must("-");
            let e = self.unary();
            return call("-_", None, vec![e]);
        }
        self.postfix()
    }

    fn args(&mut self, close: &str) -> Vec<IdedExpr> {
        let mut out = Vec::new();
        if self.eat(close) {
            return out;
        }
        loop {
            out.push(self.expr());
            if self.eat(close) {
                return out;
            }
            self.must(",");
        }
    }

    fn postfix(&mut self) -> IdedExpr {
        let mut e = self.primary();
        loop {
            if self.eat(".") {
                let name = self.name();
                if self.eat("(") {
                    let args = self.args(")");
                    e = macro_call(&name, e, args);
                } else {
                    e = node(Expr::Select(SelectExpr {
                        operand: Box::new(e),
                        field: name,
                        test: false,
                    }));
                }
            } else if self.eat("[") {
                let index = self.expr();
                self.must("]");
                e = call("_[_]", None, vec![e, index]);
            } else {
                return e;
            }
        }
    }

    fn name(&mut self) -> String {
        self.spaces();
        let mut s = String::new();
        while self.at < self.chars.len()
            && (self.chars[self.at].is_alphanumeric() || self.chars[self.at] == '_')
        {
            s.push(self.chars[self.at]);
            self.at += 1;
        }
        s
    }

    fn number(&mut self) -> IdedExpr {
        let mut s = String::new();
        while self.at < self.chars.len()
            && (self.chars[self.at].is_ascii_digit()
                || self.chars[self.at] == '.'
                || (s.is_empty() && self.chars[self.at] == '-'))
        {
            s.push(self.chars[self.at]);
            self.at += 1;
        }
        if s.contains('.') {
            let f: f64 = s.parse().unwrap();
            return node(Expr::Literal(LiteralValue::Double(f.to_bits())));
        }
        if self.looking_at("u") {
            self.at += 1;
            return node(Expr::Literal(LiteralValue::UInt(s.parse().unwrap())));
        }
        node(Expr::Literal(LiteralValue::Int(s.parse().unwrap())))
    }

    fn primary(&mut self) -> IdedExpr {
        self.spaces();
        let c = self.chars[self.at];
        if c == '(' {
            self.must("(");
            let e = self.expr();
            self.must(")");
            return e;
        }
        if c == '[' {
            self.must("[");
            let elements = self.args("]");
            return node(Expr::List(ListExpr { elements, optional_indices: Vec::new() }));
        }
        if c == '{' {
            self.must("{");
            let mut entries = Vec::new();
            while !self.eat("}") {
                if !entries.is_empty() {
                    self.must(",");
                }
                let key = self.expr();
                self.must(":");
                let value = self.expr();
                entries.push(IdedEntryExpr {
                    id: 0,
                    expr: EntryExpr::MapEntry(MapEntryExpr { key, value, optional: false }),
                });
            }
            return node(Expr::Dict(MapExpr { entries }));
        }
        if c == '"' || c == '\'' {
            self.at += 1;
            let mut s = String::new();
            while self.chars[self.at] != c {
                s.push(self.chars[self.at]);
                self.at += 1;
            }
            self.at += 1;
            return node(Expr::Literal(LiteralValue::String(s)));
        }
        if c == '-' || c.is_ascii_digit() {
            return self.number();
        }
        let name = self.name();
        assert!(!name.is_empty(), "unexpected {} at {}", c, self.at);
        if name == "true" || name == "false" {
            return boolean(name == "true");
        }
        if name == "null" {
            return node(Expr::Literal(LiteralValue::Null));
        }
        if self.eat("(") {
            let mut args = self.args(")");
            if name == "has" {
                if let Expr::Select(s) = args.remove(0).expr {
                    return node(Expr::Select(SelectExpr { test: true, ..s }));
                }
                panic!("has() takes a field");
            }
            return call(&name, None, args);
        }
        ident(&name)
    }
}

fn macro_call(name: &str, target: IdedExpr, mut args: Vec<IdedExpr>) -> IdedExpr {
    if (name == "exists" || name == "all") && args.len() == 2 {
        let body = args.remove(1);
        let iter_var = match args.remove(0).expr {
            Expr::Ident(n) => n,
            _ => panic!("a macro takes a name"),
        };
        let accu = "@result";
        let exists = name == "exists";
        let running = if exists { call("!_", None, vec![ident(accu)]) } else { ident(accu) };
        let step = if exists { "_||_" } else { "_&&_" };
        return node(Expr::Comprehension(Box::new(ComprehensionExpr {
            iter_range: target,
            iter_var,
            iter_var2: None,
            accu_var: accu.to_string(),
            accu_init: boolean(!exists),
            loop_cond: call("@not_strictly_false", None, vec![running]),
            loop_step: call(step, None, vec![ident(accu), body]),
            result: ident(accu),
        })));
    }
    call(name, Some(target), args)
}

fn parse(source: &str) -> IdedExpr {
    let mut p = Parser { chars: source.chars().collect(), at: 0 };
    let e = p.expr();
    p.spaces();
    assert!(p.at == p.chars.len(), "trailing text at {}", p.at);
    e
}

fn test_compile(script: &str, ctx: Option<Context>) -> Result<Value, ExecutionError> {
    let expression = parse(script);
    let closure = compile_expression(&expression, &[]);
    let ctx = ctx.unwrap_or_default();
    closure.call(&ctx)
}

fn dict(entries: Vec<(&str, Value)>) -> Value {
    let mut m = ValueMap::new();
    for (k, v) in entries {
        m.insert(Key::String(k.to_string()), v);
    }
    Value::Dict(m)
}

fn ints(items: &[i64]) -> Value {
    Value::List(items.iter().map(|i| Value::Int(*i)).collect())
}

#[test]
fn test_literal_int() {
    let result = test_compile("42", None).unwrap();
    assert_eq!(result, Value::Int(42));
}

#[test]
fn test_literal_string() {
    let result = test_compile("\"hello\"", None).unwrap();
    assert_eq!(result, Value::String(Arc::new("hello".to_string())));
}

#[test]
fn test_literal_bool() {
    let result = test_compile("true", None).unwrap();
    assert_eq!(result, Value::Bool(true));
}

#[test]
fn test_literal_null() {
    let result = test_compile("null", None).unwrap();
    assert_eq!(result, Value::Null);
}

#[test]
fn test_identifier() {
    let mut ctx = Context::default();
    ctx.add_variable("x", Value::Int(42));
    let result = test_compile("x", Some(ctx)).unwrap();
    assert_eq!(result, Value::Int(42));
}

#[test]
fn test_undeclared_identifier() {
    let result = test_compile("undefined_var", None);
    assert!(matches!(
        result,
        Err(ExecutionError::UndeclaredReference(_))
    ));
}

#[test]
fn test_add_ints() {
    let result = test_compile("1 + 2", None).unwrap();
    assert_eq!(result, Value::Int(3));
}

#[test]
fn test_add_overflow() {
    let result = test_compile(&format!("{} + 1", i64::MAX), None);
    assert!(matches!(result, Err(ExecutionError::Overflow(..))));
}

#[test]
fn test_sub_ints() {
    let result = test_compile("5 - 3", None).unwrap();
    assert_eq!(result, Value::Int(2));
}

#[test]
fn test_mul_ints() {
    let result = test_compile("3 * 4", None).unwrap();
    assert_eq!(result, Value::Int(12));
}

#[test]
fn test_div_ints() {
    let result = test_compile("10 / 3", None).unwrap();
    assert_eq!(result, Value::Int(3));
}

#[test]
fn test_div_by_zero() {
    let result = test_compile("1 / 0", None);
    assert!(matches!(result, Err(ExecutionError::DivisionByZero(_))));
}

#[test]
fn test_mod_ints() {
    let result = test_compile("10 % 3", None).unwrap();
    assert_eq!(result, Value::Int(1));
}

#[test]
fn test_negate_int() {
    let result = test_compile("-42", None).unwrap();
    assert_eq!(result, Value::Int(-42));
}

#[test]
fn test_negate_float() {
    let result = test_compile("-3.14", None).unwrap();
    assert!(matches!(result, Value::Float(v) if (f64::from_bits(v) - -3.14).abs() < 1e-10));
}

#[test]
fn test_not() {
    let result = test_compile("!true", None).unwrap();
    assert_eq!(result, Value::Bool(false));
}

#[test]
fn test_logical_and_short_circuit() {
    assert_eq!(
        test_compile("true && true", None).unwrap(),
        Value::Bool(true)
    );
    assert_eq!(
        test_compile("false && false", None).unwrap(),
        Value::Bool(false)
    );
    assert_eq!(
        test_compile("false && (1 / 0 == 0)", None).unwrap(),
        Value::Bool(false)
    );
}

#[test]
fn test_logical_or_short_circuit() {
    assert_eq!(
        test_compile("true || false", None).unwrap(),
        Value::Bool(true)
    );
    assert_eq!(
        test_compile("false || false", None).unwrap(),
        Value::Bool(false)
    );
    assert_eq!(
        test_compile("true || (1 / 0 == 0)", None).unwrap(),
        Value::Bool(true)
    );
}

#[test]
fn test_equals() {
    assert_eq!(test_compile("1 == 1", None).unwrap(), Value::Bool(true));
    assert_eq!(test_compile("1 == 2", None).unwrap(), Value::Bool(false));
    assert_eq!(
        test_compile("\"a\" == \"a\"", None).unwrap(),
        Value::Bool(true)
    );
}

#[test]
fn test_not_equals() {
    assert_eq!(test_compile("1 != 2", None).unwrap(), Value::Bool(true));
}

#[test]
fn test_comparisons() {
    assert_eq!(test_compile("1 < 2", None).unwrap(), Value::Bool(true));
    assert_eq!(test_compile("2 <= 2", None).unwrap(), Value::Bool(true));
    assert_eq!(test_compile("3 > 2", None).unwrap(), Value::Bool(true));
    assert_eq!(test_compile("3 >= 3", None).unwrap(), Value::Bool(true));
}

#[test]
fn test_string_concat() {
    let result = test_compile("\"hello\" + \" \" + \"world\"", None).unwrap();
    assert_eq!(result, Value::String(Arc::new("hello world".to_string())));
}

#[test]
fn test_list_concat() {
    let result = test_compile("[1, 2] + [3, 4]", None).unwrap();
    assert_eq!(
        result,
        Value::List(vec![
            Value::Int(1),
            Value::Int(2),
            Value::Int(3),
            Value::Int(4),
        ])
    );
}

#[test]
fn test_list_literal() {
    let result = test_compile("[1, 2, 3]", None).unwrap();
    assert_eq!(
        result,
        Value::List(vec![
            Value::Int(1),
            Value::Int(2),
            Value::Int(3),
        ])
    );
}

#[test]
fn test_map_literal() {
    let result = test_compile("{\"a\": 1, \"b\": 2}", None).unwrap();
    let expected = dict(vec![("a", Value::Int(1)), ("b", Value::Int(2))]);
    assert_eq!(result, expected);
}

#[test]
fn test_nested_select() {
    let mut ctx = Context::default();
    ctx.add_variable(
        "obj",
        dict(vec![("inner", dict(vec![("value", Value::Int(42))]))]),
    );
    let result = test_compile("obj.inner.value", Some(ctx)).unwrap();
    assert_eq!(result, Value::Int(42));
}

#[test]
fn test_select_no_such_key() {
    let mut ctx = Context::default();
    ctx.add_variable("obj", dict(vec![("a", Value::Int(1))]));
    let result = test_compile("obj.b", Some(ctx));
    assert!(matches!(result, Err(ExecutionError::NoSuchKey(_))));
}

#[test]
fn test_has() {
    let mut ctx = Context::default();
    ctx.add_variable("obj", dict(vec![("a", Value::Int(1))]));
    let has_a = test_compile("has(obj.a)", Some(ctx)).unwrap();
    assert_eq!(has_a, Value::Bool(true));
    let mut ctx2 = Context::default();
    ctx2.add_variable("obj", dict(vec![("a", Value::Int(1))]));
    let has_b = test_compile("has(obj.b)", Some(ctx2)).unwrap();
    assert_eq!(has_b, Value::Bool(false));
}

#[test]
fn test_list_index() {
    let mut ctx = Context::default();
    ctx.add_variable("arr", ints(&[10, 20, 30]));
    let result = test_compile("arr[1]", Some(ctx)).unwrap();
    assert_eq!(result, Value::Int(20));
}

#[test]
fn test_list_negative_index() {
    let mut ctx = Context::default();
    ctx.add_variable("arr", ints(&[10, 20, 30]));
    let result = test_compile("arr[-1]", Some(ctx)).unwrap();
    assert_eq!(result, Value::Int(30));
}

#[test]
fn test_in_list() {
    let result = test_compile("1 in [1, 2, 3]", None).unwrap();
    assert_eq!(result, Value::Bool(true));
    let result = test_compile("4 in [1, 2, 3]", None).unwrap();
    assert_eq!(result, Value::Bool(false));
}

#[test]
fn test_ternary() {
    let result = test_compile("true ? 1 : 2", None).unwrap();
    assert_eq!(result, Value::Int(1));
    let result = test_compile("false ? 1 : 2", None).unwrap();
    assert_eq!(result, Value::Int(2));
}

#[test]
fn test_complex_expression() {
    let mut ctx = Context::default();
    ctx.add_variable("x", Value::Int(10));
    ctx.add_variable("y", Value::Int(20));
    let result = test_compile("(x + y) * 2", Some(ctx)).unwrap();
    assert_eq!(result, Value::Int(60));
}

#[test]
fn test_comprehension_all_basic() {
    let result = test_compile("[0, 1, 2].all(x, x >= 0)", None).unwrap();
    assert_eq!(result, Value::Bool(true));
}

#[test]
fn test_comprehension_all_false() {
    let result = test_compile("[0, -1, 2].all(x, x >= 0)", None).unwrap();
    assert_eq!(result, Value::Bool(false));
}

#[test]
fn test_comprehension_all_identity() {
    let result = test_compile("[true, true, true].all(x, x)", None).unwrap();
    assert_eq!(result, Value::Bool(true));
}

#[test]
fn test_comprehension_all_identity_false() {
    let result = test_compile("[true, true, false].all(x, x)", None).unwrap();
    assert_eq!(result, Value::Bool(false));
}

#[test]
fn test_comprehension_exists_basic() {
    let result = test_compile("[0, 1, 2].exists(x, x > 1)", None).unwrap();
    assert_eq!(result, Value::Bool(true));
}

#[test]
fn test_comprehension_exists_false() {
    let result = test_compile("[0, 1, 2].exists(x, x > 5)", None).unwrap();
    assert_eq!(result, Value::Bool(false));
}

#[test]
fn test_comprehension_matches_literal() {
    let result = test_compile("'abc'.matches('...')", None).unwrap();
    assert_eq!(result, Value::Bool(true));
}

#[test]
fn test_comprehension_matches_in_comprehension() {
    let result = test_compile("{'1': 'abc', '2': 'def', '3': 'ghi'}.all(key, key.matches('...'))", None);
    match &result {
        Ok(v) => assert_eq!(*v, Value::Bool(false)),
        Err(e) => panic!("Expected Ok but got Err({:?})", e),
    }
}

#[test]
fn test_comprehension_matches_simple() {
    let result = test_compile("['abc'].all(x, x.matches('...'))", None);
    match &result {
        Ok(v) => assert_eq!(*v, Value::Bool(true)),
        Err(e) => panic!("Expected Ok but got Err({:?})", e),
    }
}

#[test]
fn test_contains_in_comprehension() {
    let result = test_compile("['abc'].all(x, x.contains('a'))", None).unwrap();
    assert_eq!(result, Value::Bool(true));
}

/// A filter without a tree reads each variable at its field's index, also when the
/// expression names the fields out of schema order.
#[test]
fn test_eval_ast_fallback_respects_schema_indices() {
    let mut schema = Schema::new();
    let _flag = schema.add_field("flag", FieldType::Bool);
    let port = schema.add_field("port", FieldType::Int);
    let method = schema.add_field("method", FieldType::String);

    let filter = Filter::compile(Ok(parse("method == 'GET' ? port == 80 : true")), &schema).unwrap();

    assert!(filter.tree.is_none(), "expected AST fallback for ternary expr");

    let mut ctx = EvalContext::new(&schema);
    ctx.set_bool(_flag, false);
    ctx.set_i64(port, 80);
    ctx.set_str(method, "GET");

    assert_eq!(filter.eval(&ctx).unwrap(), true);

    ctx.set_i64(port, 8080);
    assert_eq!(filter.eval(&ctx).unwrap(), false);

    ctx.set_i64(port, 80);
    ctx.set_str(method, "POST");
    assert_eq!(filter.eval(&ctx).unwrap(), true);
}

/// A filter with a tree reads the fields by their indices.
#[test]
fn test_eval_tree_path_respects_schema_indices() {
    let mut schema = Schema::new();
    let _flag = schema.add_field("flag", FieldType::Bool);
    let port = schema.add_field("port", FieldType::Int);

    let filter = Filter::compile(Ok(parse("port == 80")), &schema).unwrap();
    assert!(filter.tree.is_some(), "expected filter tree for simple cmp");

    let mut ctx = EvalContext::new(&schema);
    ctx.set_bool(_flag, false);
    ctx.set_i64(port, 80);

    assert_eq!(filter.eval(&ctx).unwrap(), true);
}

#[test]
fn filter_eval_fallback_correct_indices() {
    let mut schema = Schema::new();
    let port = schema.add_field("port", FieldType::Int);
    let a = schema.add_field("a", FieldType::Bool);
    let b = schema.add_field("b", FieldType::Int);
    let _c = schema.add_field("c", FieldType::String);

        let expression = parse("a && b == 7");
    let filter = Filter::from_expression(expression, &schema).unwrap();

    assert!(filter.tree.is_some());

    let mut ctx = EvalContext::new(&schema);
    ctx.set_i64(port, 42);
    ctx.set_bool(a, true);
    ctx.set_i64(b, 7);
    ctx.set_str(_c, "test");

    let result = filter.eval(&ctx);
    assert!(result.is_ok(), "expected Ok, got {:?}", result);
    assert_eq!(result.unwrap(), true);

    ctx.set_bool(a, false);
    assert_eq!(filter.eval(&ctx), Ok(false));
}

#[test]
fn filter_eval_fallback_string_field() {
    let mut schema = Schema::new();
    let _x = schema.add_field("x", FieldType::Int);
    let _method = schema.add_field("method", FieldType::String);
    let _flag_bool = schema.add_field("flag_bool", FieldType::Bool);

        let expression = parse("flag_bool && method.startsWith('G')");
    let filter = Filter::from_expression(expression, &schema).unwrap();
    assert!(filter.tree.is_some(), "a boolean field is a test");

    let mut schema2 = Schema::new();
    let x2 = schema2.add_field("x", FieldType::Int);
    let method2 = schema2.add_field("method", FieldType::String);
    let flag_int = schema2.add_field("flag_int", FieldType::Int);

    let expr2: Expression = parse("flag_int && method.startsWith('G')");
    let filter2 = Filter::from_expression(expr2, &schema2).unwrap();
    assert!(filter2.tree.is_none());
    assert!(filter2.fallback_closure.is_some());

    let mut ctx2 = EvalContext::new(&schema2);
    ctx2.set_i64(x2, 99);
    ctx2.set_str(method2, "GET");
    ctx2.set_i64(flag_int, 1);

    let result = filter2.eval(&ctx2);
    assert!(
        result.is_err(),
        "expected type error from bool check on int in closure fallback"
    );
}

#[test]
fn filter_eval_fast_path_different_order() {
    let mut schema = Schema::new();
    let _x = schema.add_field("x", FieldType::Int);
    let method = schema.add_field("method", FieldType::String);
    let port = schema.add_field("port", FieldType::Int);

    let filter = Filter::compile(Ok(parse("port == 443 && method.startsWith('G')")), &schema).unwrap();
    assert!(filter.tree.is_some());

    let mut ctx = EvalContext::new(&schema);
    ctx.set_i64(_x, 42);
    ctx.set_str(method, "GET");
    ctx.set_i64(port, 443);

    assert_eq!(filter.eval(&ctx), Ok(true));

    ctx.set_i64(port, 80);
    assert_eq!(filter.eval(&ctx), Ok(false));
}

#[test]
fn filter_eval_fallback_three_vars() {
    let mut schema = Schema::new();
    let _p = schema.add_field("p", FieldType::Int);
    let a = schema.add_field("a", FieldType::Bool);
    let _q = schema.add_field("q", FieldType::Int);
    let b = schema.add_field("b", FieldType::Bool);
    let _r = schema.add_field("r", FieldType::Int);

    let expr: Expression = parse("a && b");
    let filter = Filter::from_expression(expr, &schema).unwrap();
    assert!(filter.tree.is_some());

    let mut ctx = EvalContext::new(&schema);
    ctx.set_i64(_p, 1);
    ctx.set_bool(a, true);
    ctx.set_i64(_q, 2);
    ctx.set_bool(b, false);
    ctx.set_i64(_r, 3);

    assert_eq!(filter.eval(&ctx), Ok(false));

    ctx.set_bool(b, true);
    assert_eq!(filter.eval(&ctx), Ok(true));
}

#[test]
fn filter_eval_fallback_correct_with_nonzero_root_variable() {
    let mut schema = Schema::new();
    let skip0 = schema.add_field("skip0", FieldType::Int);
    let skip1 = schema.add_field("skip1", FieldType::String);
    let flag = schema.add_field("flag", FieldType::Bool);

    let expr: Expression = parse("flag");
    let filter = Filter::from_expression(expr, &schema).unwrap();
    assert!(filter.tree.is_some());

    let mut ctx = EvalContext::new(&schema);
    ctx.set_i64(skip0, 123);
    ctx.set_str(skip1, "unused");
    ctx.set_bool(flag, true);

    assert_eq!(filter.eval(&ctx), Ok(true));

    ctx.set_bool(flag, false);
    assert_eq!(filter.eval(&ctx), Ok(false));
}

#[test]
fn filter_eval_string_ne() {
    let mut schema = Schema::new();
    let method = schema.add_field("method", FieldType::String);
    let filter = Filter::compile(Ok(parse("method != 'GET'")), &schema).unwrap();
    assert!(filter.tree.is_some());

    let mut ctx = EvalContext::new(&schema);
    ctx.set_str(method, "POST");
    assert_eq!(filter.eval(&ctx), Ok(true));

    ctx.set_str(method, "GET");
    assert_eq!(filter.eval(&ctx), Ok(false));
}

#[test]
fn filter_eval_bool_var_predicate() {
    let mut schema = Schema::new();
    let flag = schema.add_field("flag", FieldType::Bool);
    let filter = Filter::compile(Ok(parse("flag")), &schema).unwrap();
    assert!(filter.tree.is_some());

    let mut ctx = EvalContext::new(&schema);
    ctx.set_bool(flag, true);
    assert_eq!(filter.eval(&ctx), Ok(true));

    ctx.set_bool(flag, false);
    assert_eq!(filter.eval(&ctx), Ok(false));
}

#[test]
fn filter_eval_bool_var_in_and() {
    let mut schema = Schema::new();
    let flag = schema.add_field("flag", FieldType::Bool);
    let port = schema.add_field("port", FieldType::Int);
    let filter = Filter::compile(Ok(parse("flag && port == 80")), &schema).unwrap();
    assert!(filter.tree.is_some());

    let mut ctx = EvalContext::new(&schema);
    ctx.set_bool(flag, true);
    ctx.set_i64(port, 80);
    assert_eq!(filter.eval(&ctx), Ok(true));

    ctx.set_bool(flag, false);
    assert_eq!(filter.eval(&ctx), Ok(false));

    ctx.set_bool(flag, true);
    ctx.set_i64(port, 8080);
    assert_eq!(filter.eval(&ctx), Ok(false));
}

#[test]
fn filter_eval_bool_var_not() {
    let mut schema = Schema::new();
    let flag = schema.add_field("flag", FieldType::Bool);
    let filter = Filter::compile(Ok(parse("!flag")), &schema).unwrap();
    assert!(filter.tree.is_some());

    let mut ctx = EvalContext::new(&schema);
    ctx.set_bool(flag, true);
    assert_eq!(filter.eval(&ctx), Ok(false));

    ctx.set_bool(flag, false);
    assert_eq!(filter.eval(&ctx), Ok(true));
}

#[test]
fn filter_eval_exists_int_list() {
    let mut schema = Schema::new();
    let bot_ids = schema.add_field("bot_ids", FieldType::Any);
    let filter = Filter::compile(Ok(parse("bot_ids.exists(id, id > 5)")), &schema).unwrap();
    assert!(filter.tree.is_some(), "exists() should compile to filter tree");

    let mut ctx = EvalContext::new(&schema);
    ctx.set(bot_ids, Value::List(vec![]));
    assert_eq!(filter.eval(&ctx), Ok(false));

    ctx.set(bot_ids, Value::List(vec![
        Value::Int(1),
        Value::Int(3),
        Value::Int(5),
    ]));
    assert_eq!(filter.eval(&ctx), Ok(false));

    ctx.set(bot_ids, Value::List(vec![
        Value::Int(1),
        Value::Int(7),
        Value::Int(3),
    ]));
    assert_eq!(filter.eval(&ctx), Ok(true));
}

#[test]
fn filter_eval_exists_eq_int() {
    let mut schema = Schema::new();
    let bot_ids = schema.add_field("bot_ids", FieldType::Any);
    let filter = Filter::compile(Ok(parse("bot_ids.exists(id, id == 42)")), &schema).unwrap();
    assert!(filter.tree.is_some());

    let mut ctx = EvalContext::new(&schema);
    ctx.set(bot_ids, Value::List(vec![
        Value::Int(1),
        Value::Int(42),
        Value::Int(3),
    ]));
    assert_eq!(filter.eval(&ctx), Ok(true));

    ctx.set(bot_ids, Value::List(vec![
        Value::Int(1),
        Value::Int(2),
    ]));
    assert_eq!(filter.eval(&ctx), Ok(false));
}

#[test]
fn filter_eval_exists_str_list() {
    let mut schema = Schema::new();
    let names = schema.add_field("names", FieldType::Any);
    let filter = Filter::compile(Ok(parse(r#"names.exists(n, n == "bob")"#)), &schema).unwrap();
    assert!(filter.tree.is_some());

    let mut ctx = EvalContext::new(&schema);
    ctx.set(names, Value::List(vec![
        Value::String(Arc::new("alice".to_string())),
        Value::String(Arc::new("bob".to_string())),
    ]));
    assert_eq!(filter.eval(&ctx), Ok(true));

    ctx.set(names, Value::List(vec![
        Value::String(Arc::new("alice".to_string())),
    ]));
    assert_eq!(filter.eval(&ctx), Ok(false));
}

#[test]
fn filter_eval_exists_in_int_set() {
    let mut schema = Schema::new();
    let bot_ids = schema.add_field("bot_ids", FieldType::Any);
    let filter = Filter::compile(Ok(parse("bot_ids.exists(id, id in [42, 99])")), &schema).unwrap();
    assert!(filter.tree.is_some());

    let mut ctx = EvalContext::new(&schema);
    ctx.set(bot_ids, Value::List(vec![
        Value::Int(1),
        Value::Int(42),
        Value::Int(3),
    ]));
    assert_eq!(filter.eval(&ctx), Ok(true));

    ctx.set(bot_ids, Value::List(vec![
        Value::Int(1),
        Value::Int(2),
        Value::Int(3),
    ]));
    assert_eq!(filter.eval(&ctx), Ok(false));
}

#[test]
fn filter_eval_exists_eq_int_node() {
    let mut schema = Schema::new();
    let bot_ids = schema.add_field("bot_ids", FieldType::Any);
    let filter = Filter::compile(Ok(parse("bot_ids.exists(id, id == 42)")), &schema).unwrap();
    assert!(filter.tree.is_some());

    let mut ctx = EvalContext::new(&schema);
    ctx.set(bot_ids, Value::List(vec![
        Value::Int(1),
        Value::Int(42),
        Value::Int(3),
    ]));
    assert_eq!(filter.eval(&ctx), Ok(true));

    ctx.set(bot_ids, Value::List(vec![
        Value::Int(1),
        Value::Int(2),
    ]));
    assert_eq!(filter.eval(&ctx), Ok(false));
}

#[test]
fn filter_eval_map_key_contains() {
    let mut schema = Schema::new();
    let hdrs = schema.add_field("http__headers_map", FieldType::Any);
    let filter = Filter::compile(Ok(parse(r#"http__headers_map["via"].exists(it, it == "X-MSIP-Via")"#)), &schema).unwrap();
    assert!(filter.tree.is_some());

    let mut ctx = EvalContext::new(&schema);
    {
        ctx.set(hdrs, dict(vec![("via", Value::String(Arc::new("X-MSIP-Via".to_string())))]));
        assert_eq!(filter.eval(&ctx), Ok(true));
    }

    {
        ctx.set(hdrs, dict(vec![("via", Value::List(vec![
                Value::String(Arc::new("X-Forwarded-For".to_string())),
                Value::String(Arc::new("X-MSIP-Via".to_string())),
            ]))]));
        assert_eq!(filter.eval(&ctx), Ok(true));
    }

    {
        ctx.set(hdrs, dict(vec![("via", Value::List(vec![
                Value::String(Arc::new("X-Forwarded-For".to_string())),
            ]))]));
        assert_eq!(filter.eval(&ctx), Ok(false));
    }
}
