use lisp_parser::ast::ASTnode;
use lisp_parser::lexer::tokanize;
use lisp_parser::parser::{parser, walk};
use lisp_parser::token::{Token, TokenKind};

fn tok(kind: TokenKind, text: &str) -> Token {
    Token { kind, text: text.to_string() }
}

/// The tokens written out in order, with one space after each; a string
/// goes between double quotes.
fn spell(tokens: &[Token]) -> String {
    let mut out = String::new();
    for t in tokens {
        if t.kind == TokenKind::Str {
            out.push('"');
            out.push_str(&t.text);
            out.push('"');
        } else {
            out.push_str(&t.text);
        }
        out.push(' ');
    }
    out
}

/// The tokens that a tree is written with.
fn tokens_of(tree: &ASTnode, out: &mut Vec<Token>) {
    match tree {
        ASTnode::NumberLiteral { text } => out.push(tok(TokenKind::Number, text)),
        ASTnode::StringLiteral { text } => out.push(tok(TokenKind::Str, text)),
        ASTnode::CallExpression { callee_name, arguments } => {
            out.push(tok(TokenKind::ParenOpen, "("));
            out.push(tok(TokenKind::Identifier, callee_name));
            for argument in arguments {
                tokens_of(argument, out);
            }
            out.push(tok(TokenKind::ParenClose, ")"));
        }
    }
}

fn sample_tree() -> ASTnode {
    ASTnode::CallExpression {
        callee_name: "add".to_string(),
        arguments: vec![
            ASTnode::NumberLiteral { text: "4".to_string() },
            ASTnode::CallExpression {
                callee_name: "concat".to_string(),
                arguments: vec![
                    ASTnode::StringLiteral { text: "a (b)".to_string() },
                    ASTnode::StringLiteral { text: String::new() },
                    ASTnode::CallExpression { callee_name: "now".to_string(), arguments: vec![] },
                ],
            },
            ASTnode::NumberLiteral { text: "007".to_string() },
        ],
    }
}

#[test]
fn spelled_tokens_scan_to_the_same_tokens() {
    for source in [
        "(add 4 (subtract 3 8))",
        "(add4(subtract\"3\"8))",
        "  x,Y 12ab \"s p a c e\"\"\" ) ( ",
        "(say \"never closed",
        "",
        "\"",
    ] {
        let tokens = tokanize(source.to_string());
        assert_eq!(tokanize(spell(&tokens)), tokens);
    }
}

#[test]
fn spelling_is_a_fixed_point_of_scan_and_spell() {
    let once = spell(&tokanize("(f(g 1)\"a\"2 )".to_string()));
    assert_eq!(once, "( f ( g 1 ) \"a\" 2 ) ");
    assert_eq!(spell(&tokanize(once.clone())), once);
}

#[test]
fn a_tree_is_the_parse_of_its_own_tokens() {
    let mut tokens = Vec::new();
    tokens_of(&sample_tree(), &mut tokens);
    assert_eq!(tokens.len(), 13);
    assert_eq!(parser(tokens), Ok(sample_tree()));
}

#[test]
fn a_tree_is_the_parse_of_its_own_tokens_whatever_follows() {
    let mut tokens = Vec::new();
    tokens_of(&sample_tree(), &mut tokens);
    let own = tokens.len();
    tokens.push(tok(TokenKind::ParenClose, ")"));
    tokens.push(tok(TokenKind::Identifier, "x"));
    let mut cursor = 0;
    assert_eq!(walk(&tokens, &mut cursor), Ok(sample_tree()));
    assert_eq!(cursor, own);
}

#[test]
fn a_tree_written_out_and_scanned_parses_to_itself() {
    let mut tokens = Vec::new();
    tokens_of(&sample_tree(), &mut tokens);
    assert_eq!(parser(tokanize(spell(&tokens))), Ok(sample_tree()));
}

#[test]
fn parsing_looks_only_at_the_tokens_from_the_cursor_on() {
    let tokens = tokanize("(f 1 (g 2) x)".to_string());
    let mut longer = tokanize(") ) 9 (".to_string());
    let front = longer.len();
    longer.extend(tokens.iter().cloned());
    for at in 0..=tokens.len() {
        let mut cursor = at;
        let mut shifted = front + at;
        let here = walk(&tokens, &mut cursor);
        let there = walk(&longer, &mut shifted);
        assert_eq!(here, there);
        assert_eq!(cursor + front, shifted);
    }
}

fn leaves_are_well_formed(tree: &ASTnode) -> bool {
    match tree {
        ASTnode::NumberLiteral { text } => {
            !text.is_empty() && text.chars().all(|c| c.is_ascii_digit())
        }
        ASTnode::StringLiteral { text } => !text.contains('"'),
        ASTnode::CallExpression { arguments, .. } => arguments.iter().all(leaves_are_well_formed),
    }
}

#[test]
fn scanned_text_parses_to_a_well_formed_tree() {
    for source in ["(add 4 (subtract 3 8))", "(f \"a b\" 007 (g \"\") 12)", "42", "\"x\"", "(( 1)"] {
        let tree = parser(tokanize(source.to_string())).unwrap();
        assert!(leaves_are_well_formed(&tree));
    }
}
