use monkey::builtins;
use monkey::environment::Environment;
use monkey::evaluator::{apply_function, divide, evaluate_index_expression, evaluate_infix_expression, is_truthy};
use monkey::lexer::Lexer;
use monkey::object::{Builtin, HashKey, Object};
use monkey::parser::Parser;
use monkey::token::TokenKind;

fn run(input: &str) -> String {
    let lexer = Lexer::new(input);
    let mut parser = Parser::new(lexer);
    let program = parser.parse_program().unwrap();
    let mut environment = Environment::new();
    environment.evaluate(&program).unwrap().to_text()
}

fn run_in(environment: &mut Environment, input: &str) -> String {
    let lexer = Lexer::new(input);
    let mut parser = Parser::new(lexer);
    let program = parser.parse_program().unwrap();
    environment.evaluate(&program).unwrap().to_text()
}

#[test]
fn arithmetic_and_precedence() {
    assert_eq!(run("(5 + 10 * 2 + 15 / 3) * 2 + -10"), "50");
    assert_eq!(run("3 * (3 * 3) + 10"), "37");
}

#[test]
fn closures_capture_their_scope() {
    assert_eq!(run("let new_adder = fn(x) {fn(y) {x + y}}; let add_two = new_adder(2); add_two(2);"), "4");
}

#[test]
fn early_return_through_nesting() {
    assert_eq!(run("if (10 > 1) { if (10 > 1) { return 10; } return 1; }"), "10");
}

#[test]
fn structured_errors() {
    assert_eq!(run("5 + true; 5;"), "invalid_infix");
    assert_eq!(run("-true"), "invalid integer: true");
}

#[test]
fn builtins_on_arrays() {
    assert_eq!(run("len([1,2,3])"), "3");
    assert_eq!(run("rest([1,2,3,4])"), "[1, 2, 3]");
    assert_eq!(run("push([1,2], 3)"), "[1, 2, 3]");
    assert_eq!(run("len(\"one\", \"two\")"), "wrong number of arguments. got=2, want=1");
}

#[test]
fn hashes() {
    assert_eq!(run("{\"one\": 10-9}"), "{one: 1}");
    assert_eq!(run("{\"foo\": 5}[\"foo\"]"), "5");
    assert_eq!(run("{}[\"foo\"]"), "");
    assert_eq!(run("{true: 5}[true]"), "5");
}

#[test]
fn strings_concatenate() {
    assert_eq!(run("\"Hello\" + \" \" + \"world;\""), "Hello world;");
}

#[test]
fn evaluating_twice_in_fresh_environments_agrees() {
    for input in ["let f = fn(x) { x * 2 }; f(21)", "[1, \"a\", {true: 2}]", "if (1 < 2) { \"y\" }"].iter() {
        assert_eq!(run(input), run(input));
    }
}

#[test]
fn return_does_not_leak_out_of_calls() {
    let mut env = Environment::new();
    assert_eq!(run_in(&mut env, "let f = fn(x) { if (x) { return x; } return 0; }; f(7)"), "7");
    assert_eq!(run_in(&mut env, "let g = fn() { return 1; }; [g(), g()]"), "[1, 1]");
    assert_eq!(run_in(&mut env, "let h = fn(x) { return x; 99 }; h(3) + 1"), "4");
}

#[test]
fn hash_keys_with_equal_projection_find_the_entry() {
    assert_eq!(run("let k = 1 + 1; {2: \"two\"}[k]"), "two");
    assert_eq!(run("{\"a\" + \"b\": 3}[\"ab\"]"), "3");
    assert_eq!(run("{1 < 2: \"yes\"}[true]"), "yes");
}

#[test]
fn hash_with_repeated_key_keeps_the_last_value() {
    assert_eq!(run("{1: \"a\", 2: \"b\", 1: \"c\"}"), "{1: c, 2: b}");
    assert_eq!(run("{1: \"a\", 1: \"c\"}[1]"), "c");
}

#[test]
fn unusable_hash_key_is_an_error() {
    assert_eq!(run("{[1]: 2}"), "unusable as hash key: [1]");
    assert_eq!(run("{\"a\": 1}[[1]]"), "");
}

#[test]
fn array_index_at_length_is_null() {
    assert_eq!(run("[1, 2, 3][3]"), "");
    assert_eq!(run("[1, 2, 3][-1]"), "");
    assert_eq!(run("[][0]"), "");
}

#[test]
fn division_by_zero_is_an_error() {
    assert_eq!(run("1 / 0"), "division by zero");
    assert_eq!(run("7 / -2"), "-3");
    assert_eq!(run("-7 / 2"), "-3");
    assert_eq!(divide(i64::MIN, -1), i64::MIN);
    assert_eq!(divide(9, 3), 3);
}

#[test]
fn integer_arithmetic_wraps() {
    assert_eq!(run("9223372036854775807 + 1"), "-9223372036854775808");
    assert_eq!(run("-(0 - 9223372036854775807 - 1)"), "-9223372036854775808");
}

#[test]
fn operators_on_unsupported_pairs() {
    assert_eq!(run("\"a\" - \"b\""), "invalid operator: -");
    assert_eq!(run("true < false"), "invalid operator: <");
    assert_eq!(run("1 + \"a\""), "invalid_infix");
    assert_eq!(run("[1] == [1]"), "invalid_infix");
}

#[test]
fn errors_stop_the_program() {
    assert_eq!(run("let a = 1 + true; 5"), "invalid_infix");
    assert_eq!(run("[1, -true, 3]"), "invalid integer: true");
    assert_eq!(run("len(1 + true)"), "invalid_infix");
}

#[test]
fn unbound_identifier_is_null() {
    assert_eq!(run("nothing"), "");
    assert_eq!(run("nothing(1)"), "");
}

#[test]
fn missing_arguments_are_null_and_extra_ones_ignored() {
    assert_eq!(run("let f = fn(a, b) { b }; f(1)"), "");
    assert_eq!(run("let f = fn(a) { a }; f(1, 2)"), "1");
}

#[test]
fn closures_do_not_see_later_bindings() {
    assert_eq!(run("let f = fn() { later }; let later = 5; f()"), "");
}

#[test]
fn user_bindings_win_over_builtins() {
    assert_eq!(run("let len = fn(x) { 42 }; len([1])"), "42");
    assert_eq!(run("len"), "builtin function");
}

#[test]
fn runaway_self_application_hits_the_depth_limit() {
    assert_eq!(run("let f = fn(g) { g(g) }; f(f)"), "call depth exceeded");
}

#[test]
fn blocks_bind_in_the_enclosing_scope() {
    assert_eq!(run("if (true) { let x = 3; }; x"), "3");
}

#[test]
fn environment_persists_between_programs() {
    let mut env = Environment::new();
    assert_eq!(run_in(&mut env, "let a = 5;"), "5");
    assert_eq!(run_in(&mut env, "a * 2"), "10");
}

#[test]
fn builtin_edge_cases() {
    assert_eq!(run("first([])"), "");
    assert_eq!(run("last([])"), "");
    assert_eq!(run("rest([])"), "");
    assert_eq!(run("rest([1])"), "[]");
    assert_eq!(run("len(\"é\")"), "2");
    assert_eq!(run("first()"), "wrong number of arguments. got=0, want=1");
    assert_eq!(run("push([1])"), "wrong number of arguments. got=1, want=2");
    assert_eq!(run("first([1], 2)"), "1");
    assert_eq!(run("last([1, 5], 2)"), "5");
    assert_eq!(run("rest([1, 2], 9)"), "[1]");
    assert_eq!(run("push([1], 2, 3)"), "[1, 2]");
}

#[test]
fn function_values_have_a_text_form() {
    assert_eq!(run("fn(x, y) { x + y }"), "fn(x, y) {x + y}");
}

#[test]
fn parse_error_text() {
    let lexer = Lexer::new("let 5 = 1");
    let mut parser = Parser::new(lexer);
    let err = parser.parse_program().unwrap_err();
    assert_eq!(err.to_text(), "invalid token: Token { token_type: INT, literal: \"5\" }");
}

#[test]
fn library_functions_on_values() {
    assert!(is_truthy(&Object::Integer(0)));
    assert!(!is_truthy(&Object::Null));
    assert!(!is_truthy(&Object::Boolean(false)));
    let sum = evaluate_infix_expression(Object::Integer(2), TokenKind::ASTERISK, Object::Integer(21));
    assert_eq!(sum.to_text(), "42");
    let s = apply_function(Object::Builtin { func: Builtin::Len }, vec![Object::String("abc".to_string())], 5);
    assert_eq!(s.to_text(), "3");
    let arr = builtins::push(vec![builtins::rest(vec![Object::Null]), Object::Null]);
    assert_eq!(arr.to_text(), "argument to 'push' must be array, got argument to 'rest' must be array, got ");
    let idx = evaluate_index_expression(&Object::Null, &Object::Integer(0));
    assert_eq!(idx.to_text(), "");
    assert_eq!(HashKey::get_hashkey(&Object::Integer(3)), HashKey::Integer(3));
    assert_eq!(HashKey::get_hashkey(&Object::Null), HashKey::Null);
    assert_eq!(builtins::new().len(), 5);
    assert_eq!(builtins::lookup("push"), Some(Builtin::Push));
    assert_eq!(builtins::lookup("pop"), None);
}

#[test]
fn environment_get_falls_back_to_builtins() {
    let env = Environment::new();
    for name in ["len", "first", "last", "rest", "push"].iter() {
        let v = env.get(name).unwrap();
        assert_eq!(v.to_text(), "builtin function");
    }
    assert!(env.get("pop").is_none());
    let mut env = Environment::new();
    env.set("first".to_string(), Object::Integer(7));
    assert_eq!(env.get("first").unwrap().to_text(), "7");
    let inner = env.new_outer();
    assert_eq!(inner.get("first").unwrap().to_text(), "7");
    assert_eq!(inner.get("len").unwrap().to_text(), "builtin function");
}
