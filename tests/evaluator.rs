use monkey::environment::Environment;
use monkey::lexer::Lexer;
use monkey::object::Object;
use monkey::parser::Parser;

fn test_evaluate(input: &str) -> Object {
    let l = Lexer::new(input);
    let mut p = Parser::new(l);
    let program = p.parse_program();
    let mut environment = Environment::new();
    environment.evaluate(&program.unwrap()).unwrap()
}

fn eval_text(input: &str) -> String {
    test_evaluate(input).to_text()
}

#[test]
fn test_eval_integer_expression() {
    let tests = vec![
        ("5", 5),
        ("10", 10),
        ("-5", -5),
        ("-10", -10),
        ("5 + 5 + 5 + 5 - 10", 10),
        ("2 * 2 * 2 * 2 * 2", 32),
        ("-50 + 100 + -50", 0),
        ("5 * 2 + 10", 20),
        ("5 + 2 * 10", 25),
        ("20 + 2 * -10", 0),
        ("50 / 2 * 2 + 10", 60),
        ("2 * (5 + 10)", 30),
        ("3 * 3 * 3 + 10", 37),
        ("3 * (3 * 3) + 10", 37),
        ("(5 + 10 * 2 + 15 /3) * 2 + -10", 50),
    ];
    for test in tests.iter() {
        let integer = eval_text(test.0);
        assert_eq!(integer.parse::<i64>().unwrap(), test.1);
    }
}

#[test]
fn test_eval_boolean_expression() {
    let tests = vec![
        ("true", true),
        ("false", false),
        ("1 < 2", true),
        ("1 > 2", false),
        ("1 < 1", false),
        ("1 > 1", false),
        ("1 == 1", true),
        ("1 != 1", false),
        ("1 == 2", false),
        ("1 != 2", true),
        ("true == true", true),
        ("false == false", true),
        ("true == false", false),
        ("true != false", true),
        ("false != true", true),
        ("(1 < 2) == true", true),
        ("(1 < 2) == false", false),
        ("(1 > 2) == true", false),
        ("(1 > 2) == false", true),
    ];
    for test in tests.iter() {
        let boolean = eval_text(test.0);
        assert_eq!(boolean.parse::<bool>(), Ok(test.1));
    }
}

#[test]
fn test_bang_operator_expression() {
    let tests = vec![
        ("!true", false),
        ("!false", true),
        ("!5", false),
        ("!!true", true),
        ("!!false", false),
        ("!!5", true),
    ];
    for test in tests.iter() {
        let boolean = eval_text(test.0);
        assert_eq!(boolean.parse::<bool>(), Ok(test.1));
    }
}

#[test]
fn test_if_else_expression() {
    let tests = vec![
        ("if (true) {10}", "10"),
        ("if (false) {10}", ""),
        ("if (1) {10}", "10"),
        ("if (1 < 2) { 10 }", "10"),
        ("if (1 > 2) {10}", ""),
        ("if (1 > 2) {10} else {20}", "20"),
        ("if (1 < 2) {10} else {20}", "10"),
    ];
    for test in tests.iter() {
        assert_eq!(eval_text(test.0), test.1);
    }
}

#[test]
fn evaluator_test_return_statement() {
    let tests = vec![
        ("return 10;", "10"),
        ("return 10; 9;", "10"),
        ("return 2 * 5; 9;", "10"),
        ("9; return 2 * 5;", "10"),
        ("if (1 > 2) {10}", ""),
        ("if (10 > 1){
             if (10 > 1){
                return 10;
                        }
                      }", "10"),
    ];
    for test in tests.iter() {
        assert_eq!(eval_text(test.0), test.1);
    }
}

#[test]
fn test_error_handling() {
    let tests = vec![
        ("5 + true", "invalid_infix"),
        ("5 + true; 5;", "invalid_infix"),
        ("-true", "invalid integer: true"),
        ("true + false;", "invalid operator: +"),
        ("5; true + false;", "invalid operator: +"),
        ("if (10 > 1) {true + false;}", "invalid operator: +"),
        ("if (10 > 1){
            if (10 > 1) {
               return true + false;
                        }
                return 1;
                     }", "invalid operator: +"),
    ];
    for test in tests.iter() {
        assert_eq!(eval_text(test.0), test.1);
    }
}

#[test]
fn test_let_statements() {
    let tests = vec![
        ("let a = 5; a;", "5"),
        ("let a = 5 * 5; a;", "25"),
        ("let a = 5 ; let b = a; b;", "5"),
        ("let a = 5 ; let b = a; let c = a + b + 5; c;", "15"),
    ];
    for test in tests.iter() {
        assert_eq!(eval_text(test.0), test.1);
    }
}

#[test]
fn test_function_statements() {
    let tests = vec![
        ("let identity = fn(x) {x;}; identity(5);", "5"),
        ("let identity = fn(x) {return x;}; identity(5);", "5"),
        ("let double = fn(x) {x * 2;}; double(5);", "10"),
        ("let add = fn(x, y) {x + y;}; add(5, 5);", "10"),
        ("let add = fn(x, y) {x + y;}; add(5 + 5, add(5, 5));", "20"),
        ("fn(x) {x;}(5)", "5"),
    ];
    for test in tests.iter() {
        assert_eq!(eval_text(test.0), test.1);
    }
}

#[test]
fn test_closures() {
    let input = "let new_adder = fn(x) {fn(y) {x + y};};
                 let add_two = new_adder(2);
                 add_two(2);";
    let return_value = eval_text(input);
    assert_eq!(return_value.parse::<i64>().unwrap(), 4);
}

#[test]
fn test_string() {
    assert_eq!(eval_text(r#""Hello world;""#), "Hello world;");
}

#[test]
fn test_string_concatnation() {
    assert_eq!(eval_text(r#""Hello"+ " " + "world;""#), "Hello world;");
}

#[test]
fn test_builtin_functions() {
    let tests = vec![
        ("len(\"\");", "0"),
        ("len(\"four\");", "4"),
        ("len(\"hello world\");", "11"),
        ("len(1);", "argument to len not supported got 1"),
        ("len(\"one\", \"two\");", "wrong number of arguments. got=2, want=1"),
        ("first([\"a\",\"b\"]);", "a"),
        ("first(\"ab\");", "argument to 'first' must be array, got ab"),
        ("last([\"a\",\"b\"]);", "b"),
        ("last(\"ab\");", "argument to 'last' must be array, got ab"),
        ("rest([\"a\",\"b\",\"c\",\"d\"]);", "[a, b, c]"),
        ("rest(\"ab\");", "argument to 'rest' must be array, got ab"),
        ("push([\"a\",\"b\",\"c\",\"d\"], \"e\");", "[a, b, c, d, e]"),
        ("push(\"ab\");", "argument to 'push' must be array, got ab"),
    ];
    for test in tests.iter() {
        assert_eq!(eval_text(test.0), test.1);
    }
}

#[test]
fn test_array_literal() {
    assert_eq!(eval_text("[1, 2 * 2, 3 + 3]"), "[1, 4, 6]");
}

#[test]
fn test_array_index_expressions() {
    let tests = vec![
        ("[1, 2, 3][0]", "1"),
        ("[1, 2, 3][1]", "2"),
        ("[1, 2, 3][2]", "3"),
        ("let i = 0; [1][i]", "1"),
        ("[1, 2, 3][1 + 1]", "3"),
        ("let my_array = [1, 2, 3]; let i = my_array[2]", "3"),
        ("let my_array = [1, 2, 3];my_array[0] + my_array[1]", "3"),
        ("let my_array = [1, 2, 3]; let i = my_array[0]; my_array[i]", "2"),
    ];
    for test in tests.iter() {
        assert_eq!(eval_text(test.0), test.1);
    }
}

#[test]
fn test_hash_literals() {
    let tests = vec![
        ("{\"one\": 10-9}", "{one: 1}"),
        ("{\"two\": 1 + 1}", "{two: 2}"),
        ("{\"thr\"+\"ee\":6 / 2}", "{three: 3}"),
        ("{4: 4}", "{4: 4}"),
        ("{true: 5}", "{true: 5}"),
        ("{false: 6}", "{false: 6}"),
    ];
    for test in tests.iter() {
        assert_eq!(eval_text(test.0), test.1);
    }
}

#[test]
fn test_hash_index_expression() {
    let tests = vec![
        ("{\"foo\": 5}[\"foo\"]", "5"),
        ("{\"foo\": 10}[\"bar\"]", ""),
        ("let key = \"foo\"; {\"foo\": 5}[key]", "5"),
        ("{}[\"foo\"]", ""),
        ("{5: 5}[5]", "5"),
        ("{true: 5}[true]", "5"),
        ("{false: 5}[false]", "5"),
    ];
    for test in tests.iter() {
        assert_eq!(eval_text(test.0), test.1);
    }
}
