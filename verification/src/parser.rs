//! The parser: tokens to a syntax tree, by recursive descent with one token
//! of lookahead.

use crate::ast::{lemma_call_model, well_formed_expr, ASTnode, Expr};
use crate::token::{well_formed, Lexeme, Token, TokenKind};
use vstd::prelude::*;

verus! {

/// Why a token sequence could not be parsed.
#[derive(Clone, Copy, Debug, PartialEq, Eq, Structural)]
pub enum ParseError {
    /// Where an expression was expected stands a token that starts none:
    /// neither a number, nor a string, nor an opening parenthesis.
    InvalidToken,
    /// The tokens ended where more were needed.
    UnexpectedEndOfInput,
}

/// What parsing from some position gives: a value or an error, and the
/// position of the cursor afterwards.
pub struct Outcome<T> {
    pub value: Result<T, ParseError>,
    pub cursor: int,
}

/// The outcome of parsing one expression that starts at position `at`.
///
/// A number or a string token is a leaf, and the cursor moves past it. An
/// opening parenthesis starts a call: the token after it, whatever its kind,
/// gives the name, and the arguments follow up to a closing parenthesis.
/// Any other token is invalid, and the cursor stays on it. Where a token is
/// needed and none is left, the input has ended unexpectedly.
pub open spec fn parse_expr(tokens: Seq<Lexeme>, at: int) -> Outcome<Expr>
    decreases tokens.len() - at, 0int,
{
    if at < 0 || at >= tokens.len() {
        Outcome { value: Err(ParseError::UnexpectedEndOfInput), cursor: at }
    } else {
        match tokens[at].kind {
            TokenKind::Number => Outcome {
                value: Ok(Expr::Number { text: tokens[at].text }),
                cursor: at + 1,
            },
            TokenKind::Str => Outcome {
                value: Ok(Expr::Str { text: tokens[at].text }),
                cursor: at + 1,
            },
            TokenKind::ParenOpen => {
                if at + 1 >= tokens.len() {
                    Outcome { value: Err(ParseError::UnexpectedEndOfInput), cursor: at + 1 }
                } else {
                    let args = parse_args(tokens, at + 2);
                    Outcome {
                        value: match args.value {
                            Ok(list) => Ok(Expr::Call { name: tokens[at + 1].text, args: list }),
                            Err(e) => Err(e),
                        },
                        cursor: args.cursor,
                    }
                }
            },
            _ => Outcome { value: Err(ParseError::InvalidToken), cursor: at },
        }
    }
}

/// The outcome of parsing the arguments of a call from position `at` up to
/// and including the closing parenthesis that ends the call.
///
/// The test on the cursor between two arguments only serves to show that the
/// definition is well founded: an expression that parses always moves the
/// cursor forward, within the tokens (see [`lemma_parse_expr_cursor`]).
pub open spec fn parse_args(tokens: Seq<Lexeme>, at: int) -> Outcome<Seq<Expr>>
    decreases tokens.len() - at, 1int,
{
    if at < 0 || at >= tokens.len() {
        Outcome { value: Err(ParseError::UnexpectedEndOfInput), cursor: at }
    } else if tokens[at].kind == TokenKind::ParenClose {
        Outcome { value: Ok(Seq::empty()), cursor: at + 1 }
    } else {
        let first = parse_expr(tokens, at);
        match first.value {
            Ok(node) if at < first.cursor <= tokens.len() => prepend(
                seq![node],
                parse_args(tokens, first.cursor),
            ),
            Ok(_) => Outcome { value: Err(ParseError::UnexpectedEndOfInput), cursor: first.cursor },
            Err(e) => Outcome { value: Err(e), cursor: first.cursor },
        }
    }
}

/// The outcome `rest` of parsing further arguments, with the arguments
/// `done` that were parsed before put in front.
pub open spec fn prepend(done: Seq<Expr>, rest: Outcome<Seq<Expr>>) -> Outcome<Seq<Expr>> {
    Outcome {
        value: match rest.value {
            Ok(list) => Ok(done + list),
            Err(e) => Err(e),
        },
        cursor: rest.cursor,
    }
}

/// The model of what `walk` and `parser` return.
pub open spec fn result_view(result: Result<ASTnode, ParseError>) -> Result<Expr, ParseError> {
    match result {
        Ok(node) => Ok(node@),
        Err(e) => Err(e),
    }
}

/// Parsing never moves the cursor backwards; an expression that parses moves
/// it forward and leaves it within the tokens, and so does a list of
/// arguments.
pub proof fn lemma_parse_expr_cursor(tokens: Seq<Lexeme>, at: int)
    ensures
        at <= parse_expr(tokens, at).cursor,
        parse_expr(tokens, at).value is Ok ==> at < parse_expr(tokens, at).cursor <= tokens.len(),
        at <= parse_args(tokens, at).cursor,
        parse_args(tokens, at).value is Ok ==> at < parse_args(tokens, at).cursor <= tokens.len(),
    decreases tokens.len() - at,
{
    if 0 <= at < tokens.len() {
        if tokens[at].kind == TokenKind::ParenOpen && at + 1 < tokens.len() {
            lemma_parse_expr_cursor(tokens, at + 2);
        }
        if tokens[at].kind != TokenKind::ParenClose {
            let first = parse_expr(tokens, at);
            if first.value is Ok {
                lemma_parse_expr_cursor(tokens, first.cursor);
            }
        }
    }
}

/// Well-formed tokens parse to well-formed trees.
pub proof fn lemma_parse_well_formed(tokens: Seq<Lexeme>, at: int)
    requires
        forall|i: int| 0 <= i < tokens.len() ==> well_formed(#[trigger] tokens[i]),
    ensures
        parse_expr(tokens, at).value matches Ok(e) ==> well_formed_expr(e),
        parse_args(tokens, at).value matches Ok(list) ==> forall|i: int|
            0 <= i < list.len() ==> well_formed_expr(#[trigger] list[i]),
    decreases tokens.len() - at,
{
    if 0 <= at < tokens.len() {
        assert(well_formed(tokens[at]));
        if tokens[at].kind == TokenKind::ParenOpen && at + 1 < tokens.len() {
            lemma_parse_well_formed(tokens, at + 2);
        }
        if tokens[at].kind != TokenKind::ParenClose {
            let first = parse_expr(tokens, at);
            if first.value is Ok {
                let node = first.value->Ok_0;
                lemma_parse_expr_cursor(tokens, at);
                lemma_parse_well_formed(tokens, first.cursor);
                let rest = parse_args(tokens, first.cursor);
                if rest.value is Ok {
                    let list = rest.value->Ok_0;
                    assert forall|i: int| 0 <= i < (seq![node] + list).len() implies well_formed_expr(
                        #[trigger] (seq![node] + list)[i],
                    ) by {
                        if i > 0 {
                            assert((seq![node] + list)[i] == list[i - 1]);
                        }
                    }
                }
            }
        }
    }
}

impl ParseError {
    /// A short description of the error.
    pub fn message(self) -> (text: &'static str)
        ensures
            self == ParseError::InvalidToken ==> text@ == "invalid token"@,
            self == ParseError::UnexpectedEndOfInput ==> text@ == "unexpected end of input"@,
    {
        match self {
            ParseError::InvalidToken => "invalid token",
            ParseError::UnexpectedEndOfInput => "unexpected end of input",
        }
    }
}

/// Parses one expression that starts at the token under the cursor, and
/// moves the cursor past what was consumed.
///
/// The cursor is shared by the whole descent: a nested call sees what the
/// calls before it consumed, and its own advance is seen by those after it.
/// On failure the cursor is left where the error was found.
pub fn walk(tokens: &Vec<Token>, current: &mut usize) -> (result: Result<ASTnode, ParseError>)
    ensures
        result_view(result) == parse_expr(tokens.deep_view(), *old(current) as int).value,
        *final(current) == parse_expr(tokens.deep_view(), *old(current) as int).cursor,
    decreases tokens.len() - *old(current),
{
    let ghost model = tokens.deep_view();
    let at: usize = *current;
    if at >= tokens.len() {
        return Err(ParseError::UnexpectedEndOfInput);
    }
    let token = &tokens[at];
    match token.kind {
        TokenKind::Number => {
            *current = at + 1;
            Ok(ASTnode::NumberLiteral { text: token.text.clone() })
        },
        TokenKind::Str => {
            *current = at + 1;
            Ok(ASTnode::StringLiteral { text: token.text.clone() })
        },
        TokenKind::ParenOpen => {
            *current = at + 1;
            if at + 1 >= tokens.len() {
                return Err(ParseError::UnexpectedEndOfInput);
            }
            let callee_name = tokens[at + 1].text.clone();
            *current = at + 2;
            let mut arguments: Vec<ASTnode> = Vec::new();
            loop
                invariant
                    model == tokens.deep_view(),
                    at == *old(current),
                    at + 1 < tokens.len(),
                    model[at as int].kind == TokenKind::ParenOpen,
                    at + 2 <= *current <= tokens.len(),
                    parse_args(model, at + 2) == prepend(
                        arguments.deep_view(),
                        parse_args(model, *current as int),
                    ),
                    callee_name@ == model[at + 1].text,
                decreases tokens.len() - *current,
            {
                if *current >= tokens.len() {
                    return Err(ParseError::UnexpectedEndOfInput);
                }
                if tokens[*current].kind == TokenKind::ParenClose {
                    *current += 1;
                    proof {
                        lemma_call_model(callee_name, arguments);
                        assert(arguments.deep_view() + Seq::<Expr>::empty()
                            =~= arguments.deep_view());
                    }
                    let node = ASTnode::CallExpression { callee_name, arguments };
                    return Ok(node);
                }
                let ghost before = *current as int;
                let ghost done = arguments.deep_view();
                match walk(tokens, current) {
                    Ok(node) => {
                        proof {
                            lemma_parse_expr_cursor(model, before);
                        }
                        arguments.push(node);
                        proof {
                            let rest = parse_args(model, *current as int);
                            assert(arguments.deep_view() =~= done.push(node@));
                            assert(parse_args(model, before) == prepend(seq![node@], rest));
                            if rest.value is Ok {
                                assert(done + (seq![node@] + rest.value->Ok_0) =~= done.push(
                                    node@,
                                ) + rest.value->Ok_0);
                            }
                        }
                    },
                    Err(e) => {
                        return Err(e);
                    },
                }
            }
        },
        _ => Err(ParseError::InvalidToken),
    }
}

/// Parses the first expression of `tokens` into a syntax tree.
///
/// Tokens that follow the first complete expression are ignored.
pub fn parser(tokens: Vec<Token>) -> (result: Result<ASTnode, ParseError>)
    ensures
        result_view(result) == parse_expr(tokens.deep_view(), 0).value,
        (forall|i: int| 0 <= i < tokens.len() ==> well_formed(#[trigger] tokens[i]@)) ==> (
        result matches Ok(tree) ==> well_formed_expr(tree@)),
{
    let mut current: usize = 0;
    let result = walk(&tokens, &mut current);
    proof {
        if forall|i: int| 0 <= i < tokens.len() ==> well_formed(#[trigger] tokens[i]@) {
            assert forall|i: int| 0 <= i < tokens.deep_view().len() implies well_formed(
                #[trigger] tokens.deep_view()[i],
            ) by {
                assert(tokens.deep_view()[i] == tokens[i]@);
            }
            lemma_parse_well_formed(tokens.deep_view(), 0);
        }
    }
    result
}

} // verus!
