use lisp_parser::ast::ASTnode;
use lisp_parser::lexer::tokanize;
use lisp_parser::parser::{parser, walk, ParseError};
use lisp_parser::token::{Token, TokenKind};

fn tok(kind: TokenKind, text: &str) -> Token {
    Token { kind, text: text.to_string() }
}

fn number(text: &str) -> ASTnode {
    ASTnode::NumberLiteral { text: text.to_string() }
}

fn string(text: &str) -> ASTnode {
    ASTnode::StringLiteral { text: text.to_string() }
}

fn call(name: &str, arguments: Vec<ASTnode>) -> ASTnode {
    ASTnode::CallExpression { callee_name: name.to_string(), arguments }
}

fn parse(source: &str) -> Result<ASTnode, ParseError> {
    parser(tokanize(source.to_string()))
}

#[test]
fn parses_nested_call() {
    let expected = call("add", vec![number("4"), call("subtract", vec![number("3"), number("8")])]);
    assert_eq!(parse("(add 4 (subtract 3 8))"), Ok(expected));
}

#[test]
fn parses_nested_call_from_tokens() {
    let tokens = vec![
        tok(TokenKind::ParenOpen, "("),
        tok(TokenKind::Identifier, "add"),
        tok(TokenKind::Number, "4"),
        tok(TokenKind::ParenOpen, "("),
        tok(TokenKind::Identifier, "subtract"),
        tok(TokenKind::Number, "3"),
        tok(TokenKind::Number, "8"),
        tok(TokenKind::ParenClose, ")"),
        tok(TokenKind::ParenClose, ")"),
    ];
    let expected = call("add", vec![number("4"), call("subtract", vec![number("3"), number("8")])]);
    assert_eq!(parser(tokens), Ok(expected));
}

#[test]
fn parses_call_with_string_argument() {
    assert_eq!(parse("(greet \"hello\")"), Ok(call("greet", vec![string("hello")])));
}

#[test]
fn parses_bare_number() {
    assert_eq!(parse("42"), Ok(number("42")));
}

#[test]
fn parses_bare_string() {
    assert_eq!(parse("\"hi there\""), Ok(string("hi there")));
}

#[test]
fn parses_call_without_arguments() {
    assert_eq!(parse("(now)"), Ok(call("now", vec![])));
}

#[test]
fn keeps_the_order_of_arguments() {
    let expected = call("f", vec![number("1"), string("2"), number("3"), call("g", vec![])]);
    assert_eq!(parse("(f 1 \"2\" 3 (g))"), Ok(expected));
}

#[test]
fn parses_deep_nesting() {
    let expected = call("a", vec![call("b", vec![call("c", vec![call("d", vec![number("1")])])])]);
    assert_eq!(parse("(a (b (c (d 1))))"), Ok(expected));
}

#[test]
fn unterminated_call_is_unexpected_end_of_input() {
    assert_eq!(parse("(add 1"), Err(ParseError::UnexpectedEndOfInput));
}

#[test]
fn unterminated_inner_call_is_unexpected_end_of_input() {
    assert_eq!(parse("(add 1 (sub 2 3)"), Err(ParseError::UnexpectedEndOfInput));
}

#[test]
fn opening_parenthesis_alone_is_unexpected_end_of_input() {
    assert_eq!(parse("("), Err(ParseError::UnexpectedEndOfInput));
}

#[test]
fn call_name_alone_is_unexpected_end_of_input() {
    assert_eq!(parse("(add"), Err(ParseError::UnexpectedEndOfInput));
}

#[test]
fn no_tokens_is_unexpected_end_of_input() {
    assert_eq!(parser(Vec::new()), Err(ParseError::UnexpectedEndOfInput));
}

#[test]
fn stray_closing_parenthesis_is_invalid_token() {
    assert_eq!(parse(")"), Err(ParseError::InvalidToken));
    assert_eq!(parse(") (add 1 2)"), Err(ParseError::InvalidToken));
}

#[test]
fn bare_identifier_is_invalid_token() {
    assert_eq!(parse("add"), Err(ParseError::InvalidToken));
}

#[test]
fn identifier_as_argument_is_invalid_token() {
    assert_eq!(parse("(add x 1)"), Err(ParseError::InvalidToken));
}

#[test]
fn error_in_nested_call_is_returned() {
    assert_eq!(parse("(add 1 (sub y))"), Err(ParseError::InvalidToken));
}

#[test]
fn tokens_after_the_first_expression_are_ignored() {
    assert_eq!(parse("42 43"), Ok(number("42")));
    assert_eq!(parse("(f 1) )))"), Ok(call("f", vec![number("1")])));
    assert_eq!(parse("1 x"), Ok(number("1")));
}

#[test]
fn any_token_after_the_opening_parenthesis_names_the_call() {
    assert_eq!(parse("(1 2)"), Ok(call("1", vec![number("2")])));
    assert_eq!(parse("(\"f\" 2)"), Ok(call("f", vec![number("2")])));
    assert_eq!(parse("(( 2)"), Ok(call("(", vec![number("2")])));
}

#[test]
fn closing_parenthesis_can_name_a_call() {
    assert_eq!(parse("())"), Ok(call(")", vec![])));
    assert_eq!(parse("() 1)"), Ok(call(")", vec![number("1")])));
}

#[test]
fn empty_parentheses_alone_run_out_of_input() {
    assert_eq!(parse("()"), Err(ParseError::UnexpectedEndOfInput));
}

#[test]
fn walk_moves_the_cursor_past_a_leaf() {
    let tokens = tokanize("7 \"s\" (f)".to_string());
    let mut cursor = 0;
    assert_eq!(walk(&tokens, &mut cursor), Ok(number("7")));
    assert_eq!(cursor, 1);
    assert_eq!(walk(&tokens, &mut cursor), Ok(string("s")));
    assert_eq!(cursor, 2);
    assert_eq!(walk(&tokens, &mut cursor), Ok(call("f", vec![])));
    assert_eq!(cursor, 5);
    assert_eq!(walk(&tokens, &mut cursor), Err(ParseError::UnexpectedEndOfInput));
    assert_eq!(cursor, 5);
}

#[test]
fn walk_moves_the_cursor_past_a_whole_call() {
    let tokens = tokanize("(add 4 (subtract 3 8)) 9".to_string());
    let mut cursor = 0;
    assert!(walk(&tokens, &mut cursor).is_ok());
    assert_eq!(cursor, 9);
    assert_eq!(walk(&tokens, &mut cursor), Ok(number("9")));
    assert_eq!(cursor, 10);
}

#[test]
fn walk_starts_at_the_given_cursor() {
    let tokens = tokanize("(add 4 (subtract 3 8))".to_string());
    let mut cursor = 3;
    assert_eq!(walk(&tokens, &mut cursor), Ok(call("subtract", vec![number("3"), number("8")])));
    assert_eq!(cursor, 8);
}

#[test]
fn walk_leaves_the_cursor_on_an_invalid_token() {
    let tokens = tokanize("(add 1 x 2)".to_string());
    let mut cursor = 0;
    assert_eq!(walk(&tokens, &mut cursor), Err(ParseError::InvalidToken));
    assert_eq!(cursor, 3);
}

#[test]
fn walk_leaves_the_cursor_at_the_end_of_an_unterminated_call() {
    let tokens = tokanize("(add 1".to_string());
    let mut cursor = 0;
    assert_eq!(walk(&tokens, &mut cursor), Err(ParseError::UnexpectedEndOfInput));
    assert_eq!(cursor, 3);
    let tokens = tokanize("(".to_string());
    let mut cursor = 0;
    assert_eq!(walk(&tokens, &mut cursor), Err(ParseError::UnexpectedEndOfInput));
    assert_eq!(cursor, 1);
}

#[test]
fn walk_beyond_the_tokens_fails_and_keeps_the_cursor() {
    let tokens = tokanize("1".to_string());
    let mut cursor = 5;
    assert_eq!(walk(&tokens, &mut cursor), Err(ParseError::UnexpectedEndOfInput));
    assert_eq!(cursor, 5);
}

#[test]
fn a_successful_walk_always_advances_within_the_tokens() {
    let tokens = tokanize("(a 1 (b \"x\") 2) 3 \"y\" (c)".to_string());
    let mut cursor = 0;
    while cursor < tokens.len() {
        let before = cursor;
        assert!(walk(&tokens, &mut cursor).is_ok());
        assert!(before < cursor && cursor <= tokens.len());
    }
    assert_eq!(cursor, tokens.len());
}

#[test]
fn error_messages() {
    assert_eq!(ParseError::InvalidToken.message(), "invalid token");
    assert_eq!(ParseError::UnexpectedEndOfInput.message(), "unexpected end of input");
}
