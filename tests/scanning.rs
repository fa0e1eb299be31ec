use rustox::lox::Lox;
use rustox::scanner::Scanner;
use rustox::token::{Literal, Token, TokenType};

fn scan(source: &str) -> Vec<Token> {
    Scanner::new(source.to_string()).scan_tokens()
}

fn kinds(tokens: &[Token]) -> Vec<TokenType> {
    tokens.iter().map(|t| t.token_type()).collect()
}

#[test]
fn single_number_token() {
    let tokens = scan("123");
    assert_eq!(kinds(&tokens), vec![TokenType::NUMBER, TokenType::EOF]);
    assert_eq!(tokens[0].lexeme(), "123");
    match tokens[0].literal() {
        Some(Literal::Number(text)) => assert_eq!(text, "123"),
        _ => panic!("number literal expected"),
    }
    assert_eq!(tokens[1].lexeme(), "");
}

#[test]
fn single_string_token() {
    let tokens = scan("\"abc\"");
    assert_eq!(kinds(&tokens), vec![TokenType::STRING, TokenType::EOF]);
    assert_eq!(tokens[0].lexeme(), "\"abc\"");
    match tokens[0].literal() {
        Some(Literal::String(text)) => assert_eq!(text, "abc"),
        _ => panic!("string literal expected"),
    }
}

#[test]
fn single_keyword_token() {
    let tokens = scan("true");
    assert_eq!(kinds(&tokens), vec![TokenType::TRUE, TokenType::EOF]);
    assert_eq!(tokens[0].lexeme(), "true");
    assert!(tokens[0].literal().is_none());
}

#[test]
fn single_operator_tokens() {
    for (text, kind) in [
        ("!=", TokenType::BANG_EQUAL),
        ("==", TokenType::EQUAL_EQUAL),
        ("<=", TokenType::LESS_EQUAL),
        (">=", TokenType::GREATER_EQUAL),
        ("!", TokenType::BANG),
        ("=", TokenType::EQUAL),
        ("<", TokenType::LESS),
        (">", TokenType::GREATER),
        ("/", TokenType::SLASH),
        ("(", TokenType::LEFT_PAREN),
        (")", TokenType::RIGHT_PAREN),
        ("{", TokenType::LEFT_BRACE),
        ("}", TokenType::RIGHT_BRACE),
        (";", TokenType::SEMICOLON),
    ] {
        let tokens = scan(text);
        assert_eq!(kinds(&tokens), vec![kind, TokenType::EOF], "{}", text);
        assert_eq!(tokens[0].lexeme(), text);
    }
}

#[test]
fn comment_then_number_on_second_line() {
    let tokens = scan("// comment\n123");
    assert_eq!(kinds(&tokens), vec![TokenType::NUMBER, TokenType::EOF]);
    assert_eq!(tokens[0].lexeme(), "123");
    assert_eq!(tokens[0].line(), 2);
    assert_eq!(tokens[1].line(), 2);
}

#[test]
fn unterminated_string_is_an_error() {
    let mut scanner = Scanner::new("\"abc".to_string());
    let tokens = scanner.scan_tokens();
    assert_eq!(kinds(&tokens), vec![TokenType::EOF]);
    let errors = scanner.errors();
    assert_eq!(errors.len(), 1);
    assert_eq!(errors[0].line(), 1);
    assert_eq!(errors[0].message(), "Unterminated string.");
}

#[test]
fn unexpected_character_is_an_error_and_scanning_goes_on() {
    let mut scanner = Scanner::new("1 @ 2 # 3".to_string());
    let tokens = scanner.scan_tokens();
    assert_eq!(
        kinds(&tokens),
        vec![TokenType::NUMBER, TokenType::NUMBER, TokenType::NUMBER, TokenType::EOF]
    );
    let errors = scanner.errors();
    assert_eq!(errors.len(), 2);
    assert_eq!(errors[0].message(), "Unexpected character");
    assert_eq!(errors[1].line(), 1);
}

#[test]
fn rescanning_gives_identical_tokens() {
    let source = "var x = (1.5 + \"a\nb\") // note\n<= y";
    let first = scan(source);
    let second = scan(source);
    assert_eq!(first.len(), second.len());
    for (a, b) in first.iter().zip(second.iter()) {
        assert_eq!(a.token_type(), b.token_type());
        assert_eq!(a.lexeme(), b.lexeme());
        assert_eq!(a.line(), b.line());
        assert_eq!(a.literal().map(|l| l.text()), b.literal().map(|l| l.text()));
    }
    let mut scanner = Scanner::new(source.to_string());
    let once = scanner.scan_tokens();
    let twice = scanner.scan_tokens();
    assert_eq!(kinds(&once), kinds(&twice));
}

#[test]
fn empty_source_gives_only_eof() {
    let tokens = scan("");
    assert_eq!(kinds(&tokens), vec![TokenType::EOF]);
    assert_eq!(tokens[0].line(), 1);
}

#[test]
fn number_with_trailing_point() {
    let tokens = scan("1.");
    assert_eq!(kinds(&tokens), vec![TokenType::NUMBER, TokenType::DOT, TokenType::EOF]);
    assert_eq!(tokens[0].lexeme(), "1");
    let tokens = scan("12.25");
    assert_eq!(kinds(&tokens), vec![TokenType::NUMBER, TokenType::EOF]);
    assert_eq!(tokens[0].lexeme(), "12.25");
}

#[test]
fn keywords_and_identifiers() {
    let tokens = scan("orchid or _x1 while nil");
    assert_eq!(
        kinds(&tokens),
        vec![
            TokenType::IDENTIFIER,
            TokenType::OR,
            TokenType::IDENTIFIER,
            TokenType::WHILE,
            TokenType::NIL,
            TokenType::EOF
        ]
    );
    assert_eq!(tokens[2].lexeme(), "_x1");
}

#[test]
fn string_lines_are_counted() {
    let tokens = scan("\"a\nb\"\n1");
    assert_eq!(kinds(&tokens), vec![TokenType::STRING, TokenType::NUMBER, TokenType::EOF]);
    assert_eq!(tokens[0].line(), 2);
    assert_eq!(tokens[1].line(), 3);
    assert_eq!(tokens[2].line(), 3);
}

#[test]
fn whitespace_is_skipped() {
    let tokens = scan(" \t\r-\n+ *");
    assert_eq!(
        kinds(&tokens),
        vec![TokenType::MINUS, TokenType::PLUS, TokenType::STAR, TokenType::EOF]
    );
    assert_eq!(tokens[1].line(), 2);
}

#[test]
fn token_new_keeps_its_fields() {
    let token = Token::new(
        "42".to_string(),
        TokenType::NUMBER,
        7,
        Some(Literal::Number("42".to_string())),
    );
    assert_eq!(token.token_type(), TokenType::NUMBER);
    assert_eq!(token.lexeme(), "42");
    assert_eq!(token.line(), 7);
    assert_eq!(token.literal().map(|l| l.text()), Some("42".to_string()));
}

#[test]
fn lox_run_reports_errors() {
    let mut lox = Lox::new();
    assert!(!lox.has_error());
    let tokens = lox.run("1 + @".to_string());
    assert_eq!(
        kinds(&tokens),
        vec![TokenType::NUMBER, TokenType::PLUS, TokenType::EOF]
    );
    assert!(lox.has_error());
    let errors = lox.errors();
    assert_eq!(errors.len(), 1);
    assert_eq!(errors[0].line(), 1);
    assert_eq!(errors[0].message(), "Unexpected character");
    let tokens = lox.run("2".to_string());
    assert_eq!(tokens.len(), 2);
    assert!(lox.has_error());
    assert!(lox.errors().is_empty());
    lox.clear_error();
    assert!(!lox.has_error());
    lox.run("3".to_string());
    assert!(!lox.has_error());
}

#[test]
fn new_scanner_has_no_errors() {
    let scanner = Scanner::new("@ 1".to_string());
    assert!(scanner.errors().is_empty());
}
