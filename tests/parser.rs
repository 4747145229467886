use monkey::errors::Errors;
use monkey::lexer::Lexer;
use monkey::parser::Parser;
use monkey::token::{Precedence, Token, TokenKind};

fn parse(input: &str) -> monkey::ast::Program {
    let lexer = Lexer::new(input);
    let mut parser = Parser::new(lexer);
    parser.parse_program().unwrap()
}

fn first_statement_text(input: &str) -> String {
    parse(input).statements[0].to_text()
}

#[test]
fn test_let_statement() {
    let input = r#"let x = 5;
                   let y = 10;
                   let foobar = 838383;"#;
    let program = parse(input);
    assert_eq!(program.statements.len(), 3);
    assert_eq!(program.statements[0].to_text(), "let x = 5;");
}

#[test]
fn parser_test_return_statement() {
    let input = r#"return 5;
                   return 10;
                   return 993322;"#;
    let program = parse(input);
    assert_eq!(program.statements.len(), 3);
    let tests = vec!["return 5", "return 10", "return 993322"];
    for (i, test) in tests.iter().enumerate() {
        assert_eq!(program.statements[i].to_text(), *test);
    }
}

#[test]
fn test_identifier_expression() {
    let program = parse("foobar;");
    assert_eq!(program.statements.len(), 1);
    assert_eq!(program.statements[0].to_text(), "foobar");
}

#[test]
fn test_interger_expression() {
    let program = parse("5");
    assert_eq!(program.statements.len(), 1);
    assert_eq!(program.statements[0].to_text(), "5".to_string());
}

#[test]
fn test_prefix_expression() {
    for test in ["!5", "-15"].iter() {
        let program = parse(test);
        assert_eq!(program.statements.len(), 1);
        assert_eq!(program.statements[0].to_text(), *test);
    }
}

#[test]
fn test_infix_expression() {
    let infix_tests = vec!["5 + 5;", "5 - 5;", "5 * 5;", "5 / 5;", "5 > 5;", "5 < 5;", "5 == 5;", "5 != 5;"];
    for test in infix_tests.iter() {
        let program = parse(test);
        assert_eq!(program.statements.len(), 1);
        assert_eq!(program.statements[0].to_text(), test.trim_end_matches(';'));
    }
}

#[test]
fn test_operator_precedence_parsing() {
    let tests = vec![
        ("((-a) * b)", "-a * b"),
        ("(!(-a))", "!-a"),
        ("((a + b) + c)", "a + b + c"),
        ("((a + b) - c)", "a + b - c"),
        ("((a * b) * c)", "a * b * c"),
        ("((a * b) / c)", "a * b / c"),
        ("(a + (b / c))", "a + b / c"),
        ("(1 + (2 + 3)) + 4", "1 + 2 + 3 + 4"),
        ("((5 + 5) * 2)", "5 + 5 * 2"),
        ("(2 / (5 + 5))", "2 / 5 + 5"),
        ("(-(5 + 5))", "-5 + 5"),
        ("(!(true == true))", "!true == true"),
    ];
    for test in tests.iter() {
        assert_eq!(first_statement_text(test.0), test.1);
    }
}

#[test]
fn test_bool_expression() {
    let tests = vec![("true", true), ("false", false)];
    for (test, right) in tests.iter() {
        let program = parse(test);
        assert_eq!(program.statements.len(), 1);
        let text = program.statements[0].to_text();
        assert_eq!(text.parse::<bool>(), Ok(*right));
    }
}

#[test]
fn test_bool_infix_expression() {
    let lexer = Lexer::new("3 > 5 == false");
    let mut parser = Parser::new(lexer);
    let program = parser.parse_program();
    assert!(program.is_ok());
    assert_eq!(program.unwrap().statements[0].to_text(), "3 > 5 == false");
}

#[test]
fn test_if_expression() {
    let input = "if (1 > 2) {10} else {20}".to_string();
    assert_eq!(first_statement_text(&input), input);
}

#[test]
fn test_function_expression() {
    let input = "fn (x, y) {x + y}".to_string();
    assert_eq!(first_statement_text(&input), input);
}

#[test]
fn test_call_expression() {
    let input = "add(1, 2 * 3, 4 + 5);".to_string();
    assert_eq!(first_statement_text(&input), input);
}

#[test]
fn test_string_literal_expression() {
    assert_eq!(first_statement_text(r#""Hello world;""#), "Hello world;");
}

#[test]
fn parses_arrays_hashes_and_index() {
    assert_eq!(first_statement_text("[1, 2 * 2, a[0]]"), "[1, 2 * 2, a[0]]");
    assert_eq!(first_statement_text("{\"a\": 1, 2: b}"), "{a: 1, 2: b}");
    assert_eq!(first_statement_text("a * [1, 2][1]"), "a * [1, 2][1]");
    assert_eq!(first_statement_text("[]"), "[]");
    assert_eq!(first_statement_text("{}"), "{}");
}

#[test]
fn program_text_separates_statements_by_newline() {
    let program = parse("let a = 1; a + 2; return a");
    assert_eq!(program.to_text(), "let a = 1;\na + 2\nreturn a");
}

#[test]
fn parse_error_reports_offending_token() {
    let lexer = Lexer::new("let = 5;");
    let mut parser = Parser::new(lexer);
    match parser.parse_program() {
        Err(Errors::TokenInvalid(t)) => {
            assert_eq!(t.token_type, TokenKind::ASSIGN);
            assert_eq!(t.literal, "=");
        }
        other => panic!("unexpected result {:?}", other),
    }
}

#[test]
fn parse_error_on_missing_closer_and_stray_tokens() {
    for input in ["(1 + 2", "[1, 2", "if (x) { 1", "fn(x { x }", "{1 2}", ";", "1 @ 2"].iter() {
        let lexer = Lexer::new(input);
        let mut parser = Parser::new(lexer);
        assert!(parser.parse_program().is_err(), "{}", input);
    }
}

#[test]
fn integer_literal_out_of_range_is_a_parse_error() {
    let lexer = Lexer::new("9223372036854775808");
    let mut parser = Parser::new(lexer);
    assert!(parser.parse_program().is_err());
    assert_eq!(first_statement_text("9223372036854775807"), "9223372036854775807");
}

#[test]
fn token_precedences() {
    let t = Token { token_type: TokenKind::ASTERISK, literal: "*".to_string() };
    assert_eq!(t.get_precedence(), Precedence::PRODUCT);
    let t = Token { token_type: TokenKind::LBRACKET, literal: "[".to_string() };
    assert_eq!(t.get_precedence(), Precedence::INDEX);
    let t = Token { token_type: TokenKind::IDENT, literal: "x".to_string() };
    assert_eq!(t.get_precedence(), Precedence::LOWEST);
    assert!(Precedence::SUM.level() < Precedence::PRODUCT.level());
}

#[test]
fn parser_next_token_stops_at_eof() {
    let lexer = Lexer::new("a b");
    let mut parser = Parser::new(lexer);
    parser.next_token();
    parser.next_token();
    parser.next_token();
    assert!(parser.parse_program().is_ok());
}

#[test]
fn parenthesized_source_parses_back_to_canonical_text() {
    let source = " let x = ( ( 1 + ( 2 * 3 ) ) - ( - y ) ) ; ( f ( [ 1 , \"a\" ] , { true : ( x [ 0 ] ) } ) ) ;";
    let program = parse(source);
    assert_eq!(program.statements.len(), 2);
    assert_eq!(program.to_text(), "let x = 1 + 2 * 3 - -y;\nf([1, a], {true: x[0]});");
    let reparsed = parse("let x = 1 + 2 * 3 - -y; f([1, \"a\"], {true: x[0]});");
    assert_eq!(reparsed.to_text(), program.to_text());
}

#[test]
fn parse_whole_source() {
    let program = monkey::parser::parse("let a = [1, 2][0]; a").unwrap();
    assert_eq!(program.to_text(), "let a = [1, 2][0];\na");
    assert!(monkey::parser::parse("let 1").is_err());
}
