use monkey::lexer::Lexer;
use monkey::token::{get_keyword, TokenKind};

const SOURCE: &str = r#"let five = 5;
let ten = 10;
let add = fn(x, y){
   x + y;
};
let result = add (five, ten);
!-/*5;
5 < 10 > 5;

if (5 < 10) {
    return true;
}  else {
    return false;
}

10 == 10;
10 != 9;
"foobar"
"foo bar"
"Hello world;"
"#;

fn expected_tokens() -> Vec<(TokenKind, String)> {
    vec![
        (TokenKind::LET, String::from("let")),
        (TokenKind::IDENT, String::from("five")),
        (TokenKind::ASSIGN, String::from("=")),
        (TokenKind::INT, String::from("5")),
        (TokenKind::SEMICOLON, String::from(";")),
        (TokenKind::LET, String::from("let")),
        (TokenKind::IDENT, String::from("ten")),
        (TokenKind::ASSIGN, String::from("=")),
        (TokenKind::INT, String::from("10")),
        (TokenKind::SEMICOLON, String::from(";")),
        (TokenKind::LET, String::from("let")),
        (TokenKind::IDENT, String::from("add")),
        (TokenKind::ASSIGN, String::from("=")),
        (TokenKind::FUNCTION, String::from("fn")),
        (TokenKind::LPAREN, String::from("(")),
        (TokenKind::IDENT, String::from("x")),
        (TokenKind::COMMA, String::from(",")),
        (TokenKind::IDENT, String::from("y")),
        (TokenKind::RPAREN, String::from(")")),
        (TokenKind::LBRACE, String::from("{")),
        (TokenKind::IDENT, String::from("x")),
        (TokenKind::PLUS, String::from("+")),
        (TokenKind::IDENT, String::from("y")),
        (TokenKind::SEMICOLON, String::from(";")),
        (TokenKind::RBRACE, String::from("}")),
        (TokenKind::SEMICOLON, String::from(";")),
        (TokenKind::LET, String::from("let")),
        (TokenKind::IDENT, String::from("result")),
        (TokenKind::ASSIGN, String::from("=")),
        (TokenKind::IDENT, String::from("add")),
        (TokenKind::LPAREN, String::from("(")),
        (TokenKind::IDENT, String::from("five")),
        (TokenKind::COMMA, String::from(",")),
        (TokenKind::IDENT, String::from("ten")),
        (TokenKind::RPAREN, String::from(")")),
        (TokenKind::SEMICOLON, String::from(";")),
        (TokenKind::BANG, String::from("!")),
        (TokenKind::MINUS, String::from("-")),
        (TokenKind::SLASH, String::from("/")),
        (TokenKind::ASTERISK, String::from("*")),
        (TokenKind::INT, String::from("5")),
        (TokenKind::SEMICOLON, String::from(";")),
        (TokenKind::INT, String::from("5")),
        (TokenKind::LT, String::from("<")),
        (TokenKind::INT, String::from("10")),
        (TokenKind::GT, String::from(">")),
        (TokenKind::INT, String::from("5")),
        (TokenKind::SEMICOLON, String::from(";")),
        (TokenKind::IF, String::from("if")),
        (TokenKind::LPAREN, String::from("(")),
        (TokenKind::INT, String::from("5")),
        (TokenKind::LT, String::from("<")),
        (TokenKind::INT, String::from("10")),
        (TokenKind::RPAREN, String::from(")")),
        (TokenKind::LBRACE, String::from("{")),
        (TokenKind::RETURN, String::from("return")),
        (TokenKind::TRUE, String::from("true")),
        (TokenKind::SEMICOLON, String::from(";")),
        (TokenKind::RBRACE, String::from("}")),
        (TokenKind::ELSE, String::from("else")),
        (TokenKind::LBRACE, String::from("{")),
        (TokenKind::RETURN, String::from("return")),
        (TokenKind::FALSE, String::from("false")),
        (TokenKind::SEMICOLON, String::from(";")),
        (TokenKind::RBRACE, String::from("}")),
        (TokenKind::INT, String::from("10")),
        (TokenKind::EQ, String::from("==")),
        (TokenKind::INT, String::from("10")),
        (TokenKind::SEMICOLON, String::from(";")),
        (TokenKind::INT, String::from("10")),
        (TokenKind::NotEq, String::from("!=")),
        (TokenKind::INT, String::from("9")),
        (TokenKind::SEMICOLON, String::from(";")),
        (TokenKind::STRING, String::from("foobar")),
        (TokenKind::STRING, String::from("foo bar")),
        (TokenKind::STRING, String::from("Hello world")),
        (TokenKind::EOF, String::from("")),
    ]
}

#[test]
fn test_next_token() {
    let tests = expected_tokens();
    let mut lexer = Lexer::new(SOURCE);
    for test in tests.iter() {
        let token = lexer.next_token();
        assert_eq!(token.token_type, test.0);
    }
}

#[test]
fn lexer_literals_are_source_slices() {
    let mut lexer = Lexer::new(SOURCE);
    let mut literals = Vec::new();
    loop {
        let token = lexer.next_token();
        if token.token_type == TokenKind::EOF {
            break;
        }
        literals.push(token.literal);
    }
    let table = expected_tokens();
    assert_eq!(literals.len(), table.len() - 1);
    let last = literals.len() - 1;
    for i in 0..last {
        assert_eq!(literals[i], table[i].1);
    }
    assert_eq!(literals[last], "Hello world;");
}

#[test]
fn lexer_keeps_returning_eof() {
    let mut lexer = Lexer::new("  x ");
    assert_eq!(lexer.next_token().token_type, TokenKind::IDENT);
    for _ in 0..3 {
        let token = lexer.next_token();
        assert_eq!(token.token_type, TokenKind::EOF);
        assert_eq!(token.literal, "");
    }
}

#[test]
fn lexer_marks_unknown_characters_illegal() {
    let mut lexer = Lexer::new("a @ [b]: c");
    let kinds: Vec<TokenKind> = (0..8).map(|_| lexer.next_token().token_type).collect();
    assert_eq!(
        kinds,
        vec![
            TokenKind::IDENT,
            TokenKind::ILLEGAL,
            TokenKind::LBRACKET,
            TokenKind::IDENT,
            TokenKind::RBRACKET,
            TokenKind::COLON,
            TokenKind::IDENT,
            TokenKind::EOF,
        ]
    );
}

#[test]
fn lexer_unterminated_string_runs_to_end() {
    let mut lexer = Lexer::new("\"abc");
    let token = lexer.next_token();
    assert_eq!(token.token_type, TokenKind::STRING);
    assert_eq!(token.literal, "abc");
    assert_eq!(lexer.next_token().token_type, TokenKind::EOF);
}

#[test]
fn keywords_are_recognised() {
    assert_eq!(get_keyword("let"), TokenKind::LET);
    assert_eq!(get_keyword("fn"), TokenKind::FUNCTION);
    assert_eq!(get_keyword("true"), TokenKind::TRUE);
    assert_eq!(get_keyword("false"), TokenKind::FALSE);
    assert_eq!(get_keyword("if"), TokenKind::IF);
    assert_eq!(get_keyword("else"), TokenKind::ELSE);
    assert_eq!(get_keyword("return"), TokenKind::RETURN);
    assert_eq!(get_keyword("lets"), TokenKind::IDENT);
    assert_eq!(get_keyword("x"), TokenKind::IDENT);
}
