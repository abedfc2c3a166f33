//! How a tree is written as tokens, and that the parser reads it back.
//!
//! Parsing looks only at the tokens from the cursor on, and every tree is
//! the parse of its own tokens, whatever follows them.

use crate::ast::Expr;
use crate::parser::{lemma_parse_expr_cursor, parse_args, parse_expr, prepend, Outcome, ParseError};
use crate::token::{close_paren, open_paren, Lexeme, TokenKind};
use vstd::prelude::*;

verus! {

/// The tokens that a tree is written with: a leaf is one token; a call is
/// an opening parenthesis, its name as an identifier, the tokens of its
/// arguments in order, and a closing parenthesis.
pub open spec fn tokens_of(e: Expr) -> Seq<Lexeme>
    decreases e, 0nat,
{
    match e {
        Expr::Number { text } => seq![Lexeme { kind: TokenKind::Number, text }],
        Expr::Str { text } => seq![Lexeme { kind: TokenKind::Str, text }],
        Expr::Call { name, args } => seq![
            open_paren(),
            Lexeme { kind: TokenKind::Identifier, text: name },
        ] + tokens_of_all(args, 0) + seq![close_paren()],
    }
}

/// The tokens of the trees `list[from..]`, one tree after the other.
pub open spec fn tokens_of_all(list: Seq<Expr>, from: nat) -> Seq<Lexeme>
    decreases list, list.len() - from,
{
    if from >= list.len() {
        Seq::empty()
    } else {
        tokens_of(list[from as int]) + tokens_of_all(list, from + 1)
    }
}

/// An outcome with its cursor moved forward by `by` positions.
pub open spec fn shifted<T>(outcome: Outcome<T>, by: int) -> Outcome<T> {
    Outcome { value: outcome.value, cursor: outcome.cursor + by }
}

/// Parsing depends only on the tokens from the cursor on: with tokens put
/// in front, the same value comes out, further along by their number.
pub proof fn lemma_parse_shift(front: Seq<Lexeme>, tokens: Seq<Lexeme>, at: int)
    requires
        0 <= at,
    ensures
        parse_expr(front + tokens, front.len() + at) == shifted(
            parse_expr(tokens, at),
            front.len() as int,
        ),
        parse_args(front + tokens, front.len() + at) == shifted(
            parse_args(tokens, at),
            front.len() as int,
        ),
    decreases tokens.len() - at,
{
    let all = front + tokens;
    let n = front.len() as int;
    if at < tokens.len() {
        assert(all[n + at] == tokens[at]);
        if tokens[at].kind == TokenKind::ParenOpen && at + 1 < tokens.len() {
            assert(all[n + at + 1] == tokens[at + 1]);
            lemma_parse_shift(front, tokens, at + 2);
        }
        if tokens[at].kind != TokenKind::ParenClose {
            let first = parse_expr(tokens, at);
            lemma_parse_expr_cursor(tokens, at);
            if first.value is Ok {
                lemma_parse_shift(front, tokens, first.cursor);
            }
        }
    }
}

/// The tokens of a tree start with a token that starts an expression.
proof fn lemma_tokens_of_starts(e: Expr)
    ensures
        tokens_of(e).len() > 0,
        tokens_of(e)[0].kind != TokenKind::ParenClose,
{
}

/// Every tree is the parse of its own tokens, whatever follows them, and
/// the cursor ends right behind them.
pub proof fn lemma_parse_of_tokens(e: Expr, rest: Seq<Lexeme>)
    ensures
        parse_expr(tokens_of(e) + rest, 0) == (Outcome {
            value: Ok::<Expr, ParseError>(e),
            cursor: tokens_of(e).len() as int,
        }),
    decreases e, 0nat,
{
    let all = tokens_of(e) + rest;
    match e {
        Expr::Number { text } => {
            assert(all[0] == Lexeme { kind: TokenKind::Number, text });
        },
        Expr::Str { text } => {
            assert(all[0] == Lexeme { kind: TokenKind::Str, text });
        },
        Expr::Call { name, args } => {
            let front = seq![open_paren(), Lexeme { kind: TokenKind::Identifier, text: name }];
            let inner = tokens_of_all(args, 0) + seq![close_paren()] + rest;
            assert(all =~= front + inner);
            assert(all[0] == open_paren());
            assert(all[1] == Lexeme { kind: TokenKind::Identifier, text: name });
            lemma_parse_args_of_tokens(args, 0, rest);
            lemma_parse_shift(front, inner, 0);
            assert(args.subrange(0, args.len() as int) =~= args);
        },
    }
}

/// The trees `list[from..]` are the parse of their own tokens as the
/// arguments of a call, once a closing parenthesis follows them.
pub proof fn lemma_parse_args_of_tokens(list: Seq<Expr>, from: nat, rest: Seq<Lexeme>)
    requires
        from <= list.len(),
    ensures
        parse_args(tokens_of_all(list, from) + seq![close_paren()] + rest, 0) == (Outcome {
            value: Ok::<Seq<Expr>, ParseError>(list.subrange(from as int, list.len() as int)),
            cursor: tokens_of_all(list, from).len() as int + 1,
        }),
    decreases list, list.len() - from,
{
    let all = tokens_of_all(list, from) + seq![close_paren()] + rest;
    if from >= list.len() {
        assert(all[0] == close_paren());
        assert(list.subrange(from as int, list.len() as int) =~= Seq::<Expr>::empty());
    } else {
        let head = list[from as int];
        let front = tokens_of(head);
        let tail = tokens_of_all(list, from + 1) + seq![close_paren()] + rest;
        assert(all =~= front + tail);
        lemma_tokens_of_starts(head);
        assert(all[0] == front[0]);
        lemma_parse_of_tokens(head, tail);
        lemma_parse_args_of_tokens(list, from + 1, rest);
        lemma_parse_shift(front, tail, 0);
        assert(seq![head] + list.subrange(from as int + 1, list.len() as int) =~= list.subrange(
            from as int,
            list.len() as int,
        ));
    }
}

} // verus!
