use rustox::error::Error;
use rustox::expression::{Binary, Expression, Grouping, LiteralExp, Operator, Unary};
use rustox::parser::Parser;
use rustox::scanner::Scanner;
use rustox::token::{Literal, Token, TokenType};

fn parser_for(source: &str) -> Parser {
    Parser::new(Scanner::new(source.to_string()).scan_tokens())
}

fn parse(source: &str) -> Result<Expression, Error> {
    parser_for(source).parse()
}

fn rendered(source: &str) -> String {
    match parse(source) {
        Ok(e) => e.render(),
        Err(e) => panic!("parse error at {}: {}", e.line(), e.message()),
    }
}

#[test]
fn multiplication_binds_tighter_than_addition() {
    assert_eq!(rendered("1 + 2 * 3"), "(+ 1 (* 2 3))");
}

#[test]
fn subtraction_is_left_associative() {
    assert_eq!(rendered("1 - 2 - 3"), "(- (- 1 2) 3)");
}

#[test]
fn missing_close_paren_reports_line_of_next_token() {
    let e = parse("(1 + 2").unwrap_err();
    assert_eq!(e.line(), 1);
    assert_eq!(e.message(), "Expect ')' after expression.");
    let e = parse("(1 + 2\n\n").unwrap_err();
    assert_eq!(e.line(), 3);
    let e = parse("(1 + 2\n;").unwrap_err();
    assert_eq!(e.line(), 2);
}

#[test]
fn nested_unary_is_right_associative() {
    assert_eq!(rendered("!!true"), "(! (! true))");
    assert_eq!(rendered("-!-1"), "(- (! (- 1)))");
}

#[test]
fn grouping_and_equality_layers() {
    assert_eq!(rendered("(1 + 2) * 3"), "(* (group (+ 1 2)) 3)");
    assert_eq!(rendered("1 < 2 == 3 >= 4 != nil"), "(!= (== (< 1 2) (>= 3 4)) nil)");
    assert_eq!(rendered("\"a\" / false"), "(/ \"a\" false)");
}

#[test]
fn missing_primary_is_an_error() {
    let e = parse("\n)").unwrap_err();
    assert_eq!(e.line(), 2);
    assert_eq!(e.message(), "No primary expression matched.");
    let e = parse("").unwrap_err();
    assert_eq!(e.line(), 1);
    let e = parse("1 +").unwrap_err();
    assert_eq!(e.message(), "No primary expression matched.");
}

#[test]
fn synchronize_skips_to_statement_boundary() {
    let mut parser = parser_for("1 2 ; 3");
    assert_eq!(parser.parse().unwrap().render(), "1");
    parser.synchronize();
    assert_eq!(parser.parse().unwrap().render(), "3");

    let mut parser = parser_for("1 2 4 var");
    assert_eq!(parser.parse().unwrap().render(), "1");
    parser.synchronize();
    let e = parser.parse().unwrap_err();
    assert_eq!(e.message(), "No primary expression matched.");

    let mut parser = parser_for("");
    parser.synchronize();
    assert!(parser.parse().is_err());
}

#[test]
fn nodes_built_by_hand_render() {
    let one = Token::new("1".to_string(), TokenType::NUMBER, 1, Some(Literal::Number("1".to_string())));
    let two = Token::new("2".to_string(), TokenType::NUMBER, 1, Some(Literal::Number("2".to_string())));
    let minus = Token::new("-".to_string(), TokenType::MINUS, 1, None);
    let star = Token::new("*".to_string(), TokenType::STAR, 1, None);
    let neg = Expression::Unary(Unary::new(minus, Expression::LiteralExp(LiteralExp::new(one))));
    let group = Expression::Grouping(Grouping::new(neg));
    let product = Expression::Binary(Binary::new(
        group,
        Operator::new(star),
        Expression::LiteralExp(LiteralExp::new(two)),
    ));
    assert_eq!(product.render(), "(* (group (- 1)) 2)");
}

#[test]
fn error_keeps_line_and_message() {
    let e = Error::new(4, "oops".to_string());
    assert_eq!(e.line(), 4);
    assert_eq!(e.message(), "oops");
}

#[test]
fn parser_stops_at_first_end_of_file_token() {
    let eof = Token::new(String::new(), TokenType::EOF, 5, None);
    let one = Token::new("1".to_string(), TokenType::NUMBER, 6, Some(Literal::Number("1".to_string())));
    let e = Parser::new(vec![eof, one]).parse().unwrap_err();
    assert_eq!(e.line(), 5);
    assert_eq!(e.message(), "No primary expression matched.");
}
